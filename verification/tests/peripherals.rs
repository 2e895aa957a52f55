use edc2svd::error::Error;
use edc2svd::peripheral::{
    analyze_periph, decode_register, find_mode_block, infer_peripheral, Assembly,
    PeripheralGroup, SectorFailure,
};
use edc2svd::portals::Portals;
use edc2svd::tree::Element;

fn node(name: &str, attributes: &[(&str, &str)], children: Vec<Element>) -> Element {
    Element {
        name: name.to_string(),
        attributes: attributes.iter().map(|(k, v)| (k.to_string(), v.to_string())).collect(),
        children,
        text: None,
    }
}

fn mode_list(entries: Vec<Element>) -> Element {
    node("SFRModeList", &[], vec![node("SFRMode", &[("id", "DS.0")], entries)])
}

fn field_def(name: &str, width: &str) -> Element {
    node("SFRFieldDef", &[("cname", name), ("name", name), ("nzwidth", width)], vec![])
}

/// A register definition with the given attributes besides `name`, `cname`
/// and `mclr`, and one field of eight bits.
fn sfr(name: &str, extra: &[(&str, &str)]) -> Element {
    let mut attributes = vec![("cname", name), ("name", name), ("mclr", "--------")];
    attributes.extend_from_slice(extra);
    node("SFRDef", &attributes, vec![mode_list(vec![field_def("DATA", "8")])])
}

fn hints(extra: &[(&str, &str)]) -> Element {
    node("SFRDef", extra, vec![])
}

fn nothing() -> Assembly {
    Assembly { groups: vec![], warnings: vec![] }
}

fn shape(groups: &[PeripheralGroup]) -> Vec<(String, u32, Vec<(String, u32)>)> {
    groups
        .iter()
        .map(|g| {
            (
                g.name.clone(),
                g.base_address,
                g.registers.iter().map(|r| (r.name.clone(), r.address_offset)).collect(),
            )
        })
        .collect()
}

#[test]
fn empty_member_hint_gives_way_to_group_hint() {
    let r = infer_peripheral(&hints(&[("memberofperipheral", ""), ("grp", "TMR1")]));
    assert_eq!(r, Ok("TMR1".to_string()));
}

#[test]
fn hints_in_order_of_priority() {
    let all = [
        ("_modsrc", "DOS-01618_RPORx.Module"),
        ("grp", "G"),
        ("memberofperipheral", "M"),
        ("baseofperipheral", "B"),
    ];
    assert_eq!(infer_peripheral(&hints(&all)), Ok("B".to_string()));
    assert_eq!(infer_peripheral(&hints(&all[..3])), Ok("M".to_string()));
    assert_eq!(infer_peripheral(&hints(&all[..2])), Ok("G".to_string()));
    assert_eq!(infer_peripheral(&hints(&all[..1])), Ok("PPS".to_string()));
    assert_eq!(infer_peripheral(&hints(&[])), Err(Error::MissingPeripheralHint));
}

#[test]
fn first_hint_that_is_not_empty_wins() {
    let r = infer_peripheral(&hints(&[
        ("baseofperipheral", ""),
        ("memberofperipheral", ""),
        ("grp", ""),
        ("_modsrc", "DOS-01475_lpwr_deep_sleep_ctrl_v2.Module"),
    ]));
    assert_eq!(r, Ok("DSCTRL".to_string()));
    let r = infer_peripheral(&hints(&[("baseofperipheral", ""), ("memberofperipheral", "SPI2")]));
    assert_eq!(r, Ok("SPI2".to_string()));
    let r = infer_peripheral(&hints(&[("baseofperipheral", ""), ("grp", "")]));
    assert_eq!(r, Err(Error::MissingPeripheralHint));
}

#[test]
fn module_sources_of_the_table() {
    for source in [
        "DOS-01618_RPINRx.Module",
        "DOS-01618_RPORx.Module",
        "DOS-01423_RPINRx.Module",
        "DOS-01423_RPORx.Module",
    ] {
        assert_eq!(infer_peripheral(&hints(&[("_modsrc", source)])), Ok("PPS".to_string()));
    }
    let r = infer_peripheral(&hints(&[("_modsrc", "DOS-01475_lpwr_deep_sleep_ctrl_v2.Module")]));
    assert_eq!(r, Ok("DSCTRL".to_string()));
    for source in ["", "DOS-00000_unknown.Module", "dos-01618_rpinrx.module"] {
        let r = infer_peripheral(&hints(&[("_modsrc", source)]));
        assert_eq!(r, Err(Error::MissingPeripheralHint), "{:?}", source);
    }
}

#[test]
fn label_is_the_first_word_of_the_hint() {
    let r = infer_peripheral(&hints(&[("baseofperipheral", "ADC10 ADC")]));
    assert_eq!(r, Ok("ADC10".to_string()));
    let r = infer_peripheral(&hints(&[("memberofperipheral", "I2C1 I2C2 I2C3")]));
    assert_eq!(r, Ok("I2C1".to_string()));
    let r = infer_peripheral(&hints(&[("grp", " UART"), ("_modsrc", "DOS-01618_RPORx.Module")]));
    assert_eq!(r, Err(Error::MissingPeripheralHint));
}

#[test]
fn register_definition_is_decoded() {
    let def = node(
        "SFRDef",
        &[
            ("_addr", "0x1F806000"),
            ("cname", "U1MODE"),
            ("name", "U1MODE"),
            ("mclr", "----------------0-00000000-00000"),
            ("portals", "CLR SET INV"),
            ("baseofperipheral", "UART1 UART"),
        ],
        vec![],
    );
    let reg = decode_register(&def).unwrap();
    assert_eq!(reg.name, "U1MODE");
    assert_eq!(reg.address, 0xBF80_6000);
    assert_eq!(reg.reset, 0);
    assert_eq!(reg.portals, Portals { clr: true, set: true, inv: true });
    assert_eq!(reg.peripheral, "UART1");
}

#[test]
fn address_is_mapped_into_the_segment() {
    for (text, mapped) in [
        ("0", 0xA000_0000u32),
        ("4096", 0xA000_1000),
        ("0x1000", 0xA000_1000),
        ("0x1F80F200", 0xBF80_F200),
        ("0xBF80F200", 0xBF80_F200),
        ("0x40000004", 0xE000_0004),
        ("0xFFFFFFFF", 0xFFFF_FFFF),
    ] {
        let reg = decode_register(&sfr("R", &[("_addr", text), ("grp", "G")])).unwrap();
        assert_eq!(reg.address, mapped, "{}", text);
    }
}

#[test]
fn register_without_portals_attribute_has_none() {
    let reg = decode_register(&sfr("R", &[("_addr", "8"), ("grp", "G")])).unwrap();
    assert_eq!(reg.portals, Portals { clr: false, set: false, inv: false });
    let reg = decode_register(&sfr("R", &[("_addr", "8"), ("grp", "G"), ("portals", "CLR - -")]));
    assert_eq!(reg.unwrap().portals, Portals { clr: true, set: false, inv: false });
}

#[test]
fn reset_value_of_a_register() {
    let def = node(
        "SFRDef",
        &[("_addr", "8"), ("cname", "R"), ("name", "R"), ("mclr", "1-0xu"), ("grp", "G")],
        vec![],
    );
    assert_eq!(decode_register(&def).unwrap().reset, 16);
}

#[test]
fn register_errors_by_attribute() {
    let full = [
        ("_addr", "0x10"),
        ("name", "R"),
        ("cname", "R"),
        ("portals", "- - -"),
        ("mclr", "0"),
        ("grp", "G"),
    ];
    let without = |key: &str| -> Vec<(&str, &str)> {
        full.iter().filter(|(k, _)| *k != key).cloned().collect()
    };
    let with = |key: &'static str, value: &'static str| -> Vec<(&str, &str)> {
        full.iter().map(|(k, v)| if *k == key { (key, value) } else { (*k, *v) }).collect()
    };
    let error = |attributes: Vec<(&str, &str)>| decode_register(&node("SFRDef", &attributes, vec![])).err();
    assert_eq!(error(full.to_vec()), None);
    assert_eq!(error(without("_addr")), Some(Error::MissingAttribute));
    assert_eq!(error(without("name")), Some(Error::MissingAttribute));
    assert_eq!(error(without("cname")), Some(Error::MissingAttribute));
    assert_eq!(error(without("mclr")), Some(Error::MissingAttribute));
    assert_eq!(error(without("portals")), None);
    assert_eq!(error(without("grp")), Some(Error::MissingPeripheralHint));
    assert_eq!(error(with("_addr", "0xZZ")), Some(Error::MalformedNumber));
    assert_eq!(error(with("cname", "r")), Some(Error::NameMismatch));
    assert_eq!(error(with("portals", "SET")), Some(Error::UnrecognizedPortalsSpec));
    assert_eq!(error(with("mclr", "012")), Some(Error::MalformedNumber));
    assert_eq!(error(with("grp", "")), Some(Error::MissingPeripheralHint));
}

#[test]
fn first_failing_attribute_decides() {
    let bad = node(
        "SFRDef",
        &[("_addr", "?"), ("name", "A"), ("cname", "B"), ("portals", "?"), ("mclr", "?")],
        vec![],
    );
    assert_eq!(decode_register(&bad).err(), Some(Error::MalformedNumber));
    let bad = node(
        "SFRDef",
        &[("_addr", "1"), ("name", "A"), ("cname", "B"), ("portals", "?"), ("mclr", "?")],
        vec![],
    );
    assert_eq!(decode_register(&bad).err(), Some(Error::NameMismatch));
    let bad = node(
        "SFRDef",
        &[("_addr", "1"), ("name", "A"), ("cname", "A"), ("portals", "?"), ("mclr", "?")],
        vec![],
    );
    assert_eq!(decode_register(&bad).err(), Some(Error::UnrecognizedPortalsSpec));
    let bad = node("SFRDef", &[("_addr", "1"), ("name", "A"), ("cname", "A"), ("mclr", "?")], vec![]);
    assert_eq!(decode_register(&bad).err(), Some(Error::MalformedNumber));
    let bad = node("SFRDef", &[("_addr", "1"), ("name", "A"), ("cname", "A"), ("mclr", "1")], vec![]);
    assert_eq!(decode_register(&bad).err(), Some(Error::MissingPeripheralHint));
}

#[test]
fn mode_block_is_the_first_mode_of_the_first_list() {
    let def = node(
        "SFRDef",
        &[],
        vec![
            node("Other", &[], vec![]),
            node(
                "SFRModeList",
                &[],
                vec![node("SFRMode", &[("id", "a")], vec![]), node("SFRMode", &[("id", "b")], vec![])],
            ),
            node("SFRModeList", &[], vec![node("SFRMode", &[("id", "c")], vec![])]),
        ],
    );
    let mode = find_mode_block(&def).unwrap();
    assert_eq!(mode.attribute("id").map(|s| s.as_str()), Some("a"));
    assert!(find_mode_block(&node("SFRDef", &[], vec![])).is_none());
    assert!(find_mode_block(&node("SFRDef", &[], vec![node("SFRModeList", &[], vec![])])).is_none());
    let later = node(
        "SFRDef",
        &[],
        vec![
            node("SFRModeList", &[], vec![]),
            node("SFRModeList", &[], vec![node("SFRMode", &[], vec![])]),
        ],
    );
    assert!(find_mode_block(&later).is_none());
}

#[test]
fn consecutive_registers_with_one_label_share_a_group() {
    let sector = node(
        "SFRDataSector",
        &[],
        vec![
            sfr("TMR1", &[("_addr", "0x1000"), ("grp", "TMR")]),
            sfr("PR1", &[("_addr", "0x1004"), ("grp", "TMR")]),
            sfr("U1MODE", &[("_addr", "0x2000"), ("grp", "UART")]),
        ],
    );
    let found = analyze_periph(&sector, nothing()).unwrap();
    assert_eq!(
        shape(&found.groups),
        vec![
            (
                "TMR".to_string(),
                0xA000_1000,
                vec![("TMR1".to_string(), 0x0), ("PR1".to_string(), 0x4)]
            ),
            ("UART".to_string(), 0xA000_2000, vec![("U1MODE".to_string(), 0)]),
        ]
    );
    assert!(found.warnings.is_empty());
}

#[test]
fn portals_of_a_register_stand_in_its_group() {
    let sector = node(
        "SFRDataSector",
        &[],
        vec![
            sfr("A", &[("_addr", "0x100"), ("grp", "P"), ("portals", "CLR SET INV")]),
            sfr("B", &[("_addr", "0x110"), ("grp", "P"), ("portals", "CLR - -")]),
        ],
    );
    let found = analyze_periph(&sector, nothing()).unwrap();
    assert_eq!(
        shape(&found.groups),
        vec![(
            "P".to_string(),
            0xA000_0100,
            vec![
                ("A".to_string(), 0),
                ("ACLR".to_string(), 4),
                ("ASET".to_string(), 8),
                ("AINV".to_string(), 12),
                ("B".to_string(), 0x10),
                ("BCLR".to_string(), 0x14),
            ]
        )]
    );
    let resets: Vec<_> = found.groups[0].registers.iter().map(|r| r.reset_value).collect();
    assert_eq!(resets, vec![0; 6]);
}

#[test]
fn base_address_must_increase_across_a_label_change() {
    let lower = node(
        "SFRDataSector",
        &[],
        vec![
            sfr("A", &[("_addr", "0x2000"), ("grp", "ONE")]),
            sfr("B", &[("_addr", "0x1000"), ("grp", "TWO")]),
        ],
    );
    assert_eq!(analyze_periph(&lower, nothing()).err().map(|f| f.error), Some(Error::AddressOrderingViolation));
    let equal = node(
        "SFRDataSector",
        &[],
        vec![
            sfr("A", &[("_addr", "0x2000"), ("grp", "ONE")]),
            sfr("B", &[("_addr", "0x2000"), ("grp", "TWO")]),
        ],
    );
    assert_eq!(analyze_periph(&equal, nothing()).err().map(|f| f.error), Some(Error::AddressOrderingViolation));
    let later_registers_do_not_matter = node(
        "SFRDataSector",
        &[],
        vec![
            sfr("A", &[("_addr", "0x2000"), ("grp", "ONE")]),
            sfr("B", &[("_addr", "0x1000"), ("grp", "TWO")]),
            sfr("C", &[("_addr", "0x3000"), ("grp", "THREE")]),
            node("SFRDef", &[], vec![]),
        ],
    );
    assert_eq!(
        analyze_periph(&later_registers_do_not_matter, nothing()).err().map(|f| f.error),
        Some(Error::AddressOrderingViolation)
    );
}

#[test]
fn label_that_comes_back_begins_a_new_group() {
    let sector = node(
        "SFRDataSector",
        &[],
        vec![
            sfr("A", &[("_addr", "0x10"), ("grp", "X")]),
            sfr("B", &[("_addr", "0x20"), ("grp", "Y")]),
            sfr("C", &[("_addr", "0x30"), ("grp", "X")]),
        ],
    );
    let found = analyze_periph(&sector, nothing()).unwrap();
    assert_eq!(
        shape(&found.groups),
        vec![
            ("X".to_string(), 0xA000_0010, vec![("A".to_string(), 0)]),
            ("Y".to_string(), 0xA000_0020, vec![("B".to_string(), 0)]),
            ("X".to_string(), 0xA000_0030, vec![("C".to_string(), 0)]),
        ]
    );
}

#[test]
fn failure_names_the_child_of_the_sector() {
    let sector = node(
        "SFRDataSector",
        &[],
        vec![
            node("Comment", &[], vec![]),
            sfr("A", &[("_addr", "0x2000"), ("grp", "ONE")]),
            node("Comment", &[], vec![]),
            sfr("B", &[("_addr", "0x1000"), ("grp", "TWO")]),
            sfr("C", &[("_addr", "bad"), ("grp", "THREE")]),
        ],
    );
    assert_eq!(
        analyze_periph(&sector, nothing()).err(),
        Some(SectorFailure { error: Error::AddressOrderingViolation, child: 3 })
    );
    let sector = node("SFRDataSector", &[], vec![node("SFRDef", &[], vec![])]);
    assert_eq!(
        analyze_periph(&sector, nothing()).err(),
        Some(SectorFailure { error: Error::MissingAttribute, child: 0 })
    );
}

#[test]
fn register_below_the_base_of_its_group_is_refused() {
    let sector = node(
        "SFRDataSector",
        &[],
        vec![
            sfr("A", &[("_addr", "0x1004"), ("grp", "X")]),
            sfr("B", &[("_addr", "0x1000"), ("grp", "X")]),
        ],
    );
    assert_eq!(analyze_periph(&sector, nothing()).err().map(|f| f.error), Some(Error::NegativeOffset));
}

#[test]
fn register_may_lie_below_the_one_before_it_in_its_group() {
    let sector = node(
        "SFRDataSector",
        &[],
        vec![
            sfr("A", &[("_addr", "0x1000"), ("grp", "X")]),
            sfr("B", &[("_addr", "0x1008"), ("grp", "X")]),
            sfr("C", &[("_addr", "0x1004"), ("grp", "X")]),
            sfr("D", &[("_addr", "0x1000"), ("grp", "X")]),
        ],
    );
    let found = analyze_periph(&sector, nothing()).unwrap();
    assert_eq!(
        shape(&found.groups),
        vec![(
            "X".to_string(),
            0xA000_1000,
            vec![
                ("A".to_string(), 0),
                ("B".to_string(), 8),
                ("C".to_string(), 4),
                ("D".to_string(), 0)
            ]
        )]
    );
}

#[test]
fn other_children_of_a_sector_are_passed_over() {
    let sector = node(
        "SFRDataSector",
        &[],
        vec![
            node("AdjustPoint", &[("offset", "?")], vec![]),
            sfr("A", &[("_addr", "0x10"), ("grp", "X")]),
            node("sfrdef", &[], vec![]),
            sfr("B", &[("_addr", "0x14"), ("grp", "X")]),
            node("Comment", &[], vec![sfr("C", &[("_addr", "0x18"), ("grp", "Z")])]),
        ],
    );
    let found = analyze_periph(&sector, nothing()).unwrap();
    assert_eq!(
        shape(&found.groups),
        vec![("X".to_string(), 0xA000_0010, vec![("A".to_string(), 0), ("B".to_string(), 4)])]
    );
}

#[test]
fn a_sector_begins_its_own_groups() {
    let first = node("SFRDataSector", &[], vec![sfr("A", &[("_addr", "0x2000"), ("grp", "X")])]);
    let second = node(
        "SFRDataSector",
        &[],
        vec![
            sfr("B", &[("_addr", "0x1000"), ("grp", "X")]),
            sfr("C", &[("_addr", "0x1004"), ("grp", "X")]),
        ],
    );
    let found = analyze_periph(&first, nothing()).unwrap();
    let found = analyze_periph(&second, found).unwrap();
    assert_eq!(
        shape(&found.groups),
        vec![
            ("X".to_string(), 0xA000_2000, vec![("A".to_string(), 0)]),
            ("X".to_string(), 0xA000_1000, vec![("B".to_string(), 0), ("C".to_string(), 4)]),
        ]
    );
    let empty = node("SFRDataSector", &[], vec![]);
    let found = analyze_periph(&empty, found).unwrap();
    assert_eq!(found.groups.len(), 2);
}

#[test]
fn register_without_mode_block_is_refused() {
    let def = node(
        "SFRDef",
        &[("_addr", "1"), ("cname", "A"), ("name", "A"), ("mclr", "0"), ("grp", "G")],
        vec![node("SFRModeList", &[], vec![])],
    );
    let sector = node("SFRDataSector", &[], vec![def]);
    assert_eq!(analyze_periph(&sector, nothing()).err().map(|f| f.error), Some(Error::MissingStructure));
}

#[test]
fn errors_of_a_register_in_their_order() {
    let broken_mode = || mode_list(vec![node("Bogus", &[], vec![])]);
    let good = sfr("A", &[("_addr", "0x2000"), ("grp", "ONE")]);
    let unordered_and_broken = node(
        "SFRDef",
        &[("_addr", "0x1000"), ("cname", "B"), ("name", "B"), ("mclr", "0"), ("grp", "TWO")],
        vec![broken_mode()],
    );
    let sector = node("SFRDataSector", &[], vec![good, unordered_and_broken]);
    assert_eq!(analyze_periph(&sector, nothing()).err().map(|f| f.error), Some(Error::AddressOrderingViolation));
    let broken = node(
        "SFRDef",
        &[("_addr", "0x1000"), ("cname", "B"), ("name", "B"), ("mclr", "0"), ("grp", "TWO")],
        vec![broken_mode()],
    );
    let sector = node("SFRDataSector", &[], vec![broken]);
    assert_eq!(analyze_periph(&sector, nothing()).err().map(|f| f.error), Some(Error::UnexpectedFieldEntry));
    let undecodable_without_mode = node("SFRDef", &[("_addr", "0x1000")], vec![]);
    let sector = node("SFRDataSector", &[], vec![undecodable_without_mode]);
    assert_eq!(analyze_periph(&sector, nothing()).err().map(|f| f.error), Some(Error::MissingAttribute));
}

#[test]
fn warnings_of_all_registers_are_kept_in_order() {
    let odd = |cname: &str, name: &str| {
        node("SFRFieldDef", &[("cname", cname), ("name", name), ("nzwidth", "1")], vec![])
    };
    let def = |name: &str, addr: &str, entries: Vec<Element>| {
        node(
            "SFRDef",
            &[("_addr", addr), ("cname", name), ("name", name), ("mclr", "0"), ("grp", "G"),
              ("portals", "CLR SET INV")],
            vec![mode_list(entries)],
        )
    };
    let sector = node(
        "SFRDataSector",
        &[],
        vec![
            def("A", "0", vec![odd("ON", "on"), field_def("X", "1"), odd("OFF", "off")]),
            def("B", "16", vec![field_def("Y", "1")]),
            def("C", "32", vec![odd("Z", "zed")]),
        ],
    );
    let found = analyze_periph(&sector, nothing()).unwrap();
    let got: Vec<_> = found.warnings.iter().map(|w| (w.cname.clone(), w.name.clone())).collect();
    assert_eq!(
        got,
        vec![
            ("ON".to_string(), "on".to_string()),
            ("OFF".to_string(), "off".to_string()),
            ("Z".to_string(), "zed".to_string()),
        ]
    );
    assert_eq!(found.groups[0].registers.len(), 12);
}
