//! Grouping the registers of a data sector into peripherals.
//!
//! Registers come in document order. Each names its peripheral by a hint;
//! a run of registers with one label is one group, and the address of the
//! first register of the run is the base address of the group.

use crate::error::{
    failing_index, lemma_failing_index, lemma_try_fold_error, try_fold, view_result, Error,
};
use crate::layout::{build_layout, layout_of, warning_views, NameWarning, NameWarningView};
use crate::numeral::{address_literal, decode_reset_pattern, parse_u32, reset_pattern};
use crate::portals::{decode_portals, portals_of, Portals};
use crate::register::{register_views, synthesize, synthesized, OutputRegister, RegisterView};
use crate::scan::{first_index, lemma_first_index_is};
use crate::text::{first_word, first_word_of, text_eq};
use crate::tree::{Element, ElementView};
use vstd::prelude::*;

verus! {

/// The segment through which the registers are reached: every physical
/// address is mapped into it.
pub const SEGMENT_BASE: u32 = 0xA000_0000;

/// A physical address as seen through the segment.
pub open spec fn mapped(addr: u32) -> u32 {
    addr | 0xA000_0000u32
}

/// A mapped address lies in the segment or above it.
pub proof fn lemma_mapped_bounds(addr: u32)
    ensures
        0xA000_0000 <= mapped(addr),
{
    assert(addr | 0xA000_0000u32 >= 0xA000_0000u32) by (bit_vector);
}

/// The module sources whose registers carry no other hint, each with the
/// label of its peripheral.
pub open spec fn known_modules() -> Seq<(Seq<char>, Seq<char>)> {
    seq![
        ("DOS-01618_RPINRx.Module"@, "PPS"@),
        ("DOS-01618_RPORx.Module"@, "PPS"@),
        ("DOS-01423_RPINRx.Module"@, "PPS"@),
        ("DOS-01423_RPORx.Module"@, "PPS"@),
        ("DOS-01475_lpwr_deep_sleep_ctrl_v2.Module"@, "DSCTRL"@),
    ]
}

/// The label that the table gives for a module source.
pub open spec fn module_label(source: Seq<char>) -> Option<Seq<char>> {
    let keys = known_modules().map_values(|m: (Seq<char>, Seq<char>)| m.0);
    let i = first_index(keys, source);
    if i < known_modules().len() {
        Some(known_modules()[i].1)
    } else {
        None
    }
}

/// The value of an attribute that is there and not empty.
pub open spec fn nonempty_attribute(e: ElementView, key: Seq<char>) -> Option<Seq<char>> {
    match e.attribute(key) {
        Some(v) => if v.len() > 0 {
            Some(v)
        } else {
            None
        },
        None => None,
    }
}

/// The hint that names the peripheral of a register: the first of
/// `baseofperipheral`, `memberofperipheral` and `grp` that is there and not
/// empty; without any of them, what the table gives for `_modsrc`.
pub open spec fn peripheral_hint(sfr: ElementView) -> Option<Seq<char>> {
    if nonempty_attribute(sfr, "baseofperipheral"@) is Some {
        nonempty_attribute(sfr, "baseofperipheral"@)
    } else if nonempty_attribute(sfr, "memberofperipheral"@) is Some {
        nonempty_attribute(sfr, "memberofperipheral"@)
    } else if nonempty_attribute(sfr, "grp"@) is Some {
        nonempty_attribute(sfr, "grp"@)
    } else {
        match sfr.attribute("_modsrc"@) {
            Some(source) => module_label(source),
            None => None,
        }
    }
}

/// The label that a hint gives: its first word, which must not be empty.
pub open spec fn label_of_hint(hint: Seq<char>) -> Result<Seq<char>, Error> {
    if first_word(hint).len() > 0 {
        Ok(first_word(hint))
    } else {
        Err(Error::MissingPeripheralHint)
    }
}

/// The peripheral label of a register.
pub open spec fn peripheral_label(sfr: ElementView) -> Result<Seq<char>, Error> {
    match peripheral_hint(sfr) {
        Some(hint) => label_of_hint(hint),
        None => Err(Error::MissingPeripheralHint),
    }
}

/// A register definition as read from the document.
pub struct InputRegister {
    pub name: String,
    pub address: u32,
    pub reset: u32,
    pub portals: Portals,
    pub peripheral: String,
}

/// A register definition as a mathematical value.
pub struct InputRegisterView {
    pub name: Seq<char>,
    pub address: int,
    pub reset: int,
    pub portals: Portals,
    pub peripheral: Seq<char>,
}

impl View for InputRegister {
    type V = InputRegisterView;

    open spec fn view(&self) -> InputRegisterView {
        InputRegisterView {
            name: self.name@,
            address: self.address as int,
            reset: self.reset as int,
            portals: self.portals,
            peripheral: self.peripheral@,
        }
    }
}

/// The `portals` attribute; a register without one has no portals.
pub open spec fn portals_text(sfr: ElementView) -> Seq<char> {
    match sfr.attribute("portals"@) {
        Some(p) => p,
        None => "- - -"@,
    }
}

/// What a register definition holds. Its attributes are read in this
/// order, and the first that fails decides the error: `_addr`, `name` and
/// `cname`, `portals`, `mclr`, then the hints of the peripheral.
pub open spec fn decoded_register(sfr: ElementView) -> Result<InputRegisterView, Error> {
    let addr = sfr.attribute("_addr"@);
    let name = sfr.attribute("name"@);
    let cname = sfr.attribute("cname"@);
    let mclr = sfr.attribute("mclr"@);
    if addr is None {
        Err(Error::MissingAttribute)
    } else if address_literal(addr.unwrap()) is None {
        Err(Error::MalformedNumber)
    } else if name is None || cname is None {
        Err(Error::MissingAttribute)
    } else if name.unwrap() != cname.unwrap() {
        Err(Error::NameMismatch)
    } else if portals_of(portals_text(sfr)) is None {
        Err(Error::UnrecognizedPortalsSpec)
    } else if mclr is None {
        Err(Error::MissingAttribute)
    } else if reset_pattern(mclr.unwrap()) is None {
        Err(Error::MalformedNumber)
    } else {
        match peripheral_label(sfr) {
            Ok(label) => Ok(
                InputRegisterView {
                    name: name.unwrap(),
                    address: mapped(address_literal(addr.unwrap()).unwrap()) as int,
                    reset: reset_pattern(mclr.unwrap()).unwrap() as int,
                    portals: portals_of(portals_text(sfr)).unwrap(),
                    peripheral: label,
                },
            ),
            Err(e) => Err(e),
        }
    }
}

/// The mode block of a register definition: the first `SFRMode` of its
/// first `SFRModeList`.
pub open spec fn mode_block(sfr: ElementView) -> Option<ElementView> {
    match sfr.child("SFRModeList"@) {
        Some(list) => list.child("SFRMode"@),
        None => None,
    }
}

/// A peripheral of the output and its registers.
pub struct PeripheralGroup {
    pub name: String,
    pub base_address: u32,
    pub registers: Vec<OutputRegister>,
}

/// A peripheral as a mathematical value.
#[verifier::ext_equal]
pub struct GroupView {
    pub name: Seq<char>,
    pub base_address: int,
    pub registers: Seq<RegisterView>,
}

impl View for PeripheralGroup {
    type V = GroupView;

    open spec fn view(&self) -> GroupView {
        GroupView {
            name: self.name@,
            base_address: self.base_address as int,
            registers: register_views(self.registers@),
        }
    }
}

/// The views of the peripherals of a list, in order.
pub open spec fn group_views(groups: Seq<PeripheralGroup>) -> Seq<GroupView> {
    groups.map_values(|g: PeripheralGroup| g@)
}

/// The peripherals found so far, and the warnings met on the way.
pub struct Assembly {
    pub groups: Vec<PeripheralGroup>,
    pub warnings: Vec<NameWarning>,
}

/// What was found, as a mathematical value.
#[verifier::ext_equal]
pub struct AssemblyView {
    pub groups: Seq<GroupView>,
    pub warnings: Seq<NameWarningView>,
}

impl View for Assembly {
    type V = AssemblyView;

    open spec fn view(&self) -> AssemblyView {
        AssemblyView { groups: group_views(self.groups@), warnings: warning_views(self.warnings@) }
    }
}

/// Where the walk through a sector stands: the groups so far, and whether
/// the last of them is open, that is, was begun in this sector.
#[verifier::ext_equal]
pub struct Walk {
    pub groups: Seq<GroupView>,
    pub open: bool,
    pub warnings: Seq<NameWarningView>,
}

/// The walk at the start of a sector: no group is open.
pub open spec fn begin_walk(found: AssemblyView) -> Walk {
    Walk { groups: found.groups, open: false, warnings: found.warnings }
}

/// Whether a register with this label goes into the open group.
pub open spec fn joins_open_group(walk: Walk, label: Seq<char>) -> bool {
    walk.open && walk.groups.last().name == label
}

/// The walk after one more register definition.
///
/// A register whose label is that of the open group joins it. Any other
/// begins a group of its own, whose base address is the register's address
/// and must lie above the base address of the open group. The register's
/// offset is its address less the base address of its group.
pub open spec fn register_step(walk: Walk, sfr: ElementView) -> Result<Walk, Error> {
    match decoded_register(sfr) {
        Err(e) => Err(e),
        Ok(reg) => {
            let joins = joins_open_group(walk, reg.peripheral);
            let base = if joins {
                walk.groups.last().base_address
            } else {
                reg.address
            };
            if mode_block(sfr) is None {
                Err(Error::MissingStructure)
            } else if !joins && walk.open && reg.address <= walk.groups.last().base_address {
                Err(Error::AddressOrderingViolation)
            } else if reg.address < base {
                Err(Error::NegativeOffset)
            } else {
                match layout_of(mode_block(sfr).unwrap()) {
                    Err(e) => Err(e),
                    Ok(layout) => {
                        let regs = synthesized(
                            reg.name,
                            reg.address - base,
                            reg.reset,
                            reg.portals,
                            layout,
                        );
                        Ok(
                            Walk {
                                groups: if joins {
                                    walk.groups.drop_last().push(
                                        GroupView {
                                            registers: walk.groups.last().registers + regs,
                                            ..walk.groups.last()
                                        },
                                    )
                                } else {
                                    walk.groups.push(
                                        GroupView {
                                            name: reg.peripheral,
                                            base_address: reg.address,
                                            registers: regs,
                                        },
                                    )
                                },
                                open: true,
                                warnings: walk.warnings + layout.warnings,
                            },
                        )
                    },
                }
            }
        },
    }
}

/// The walk after one more child of a sector: only register definitions
/// count.
pub open spec fn sector_step(walk: Walk, child: ElementView) -> Result<Walk, Error> {
    if child.name == "SFRDef"@ {
        register_step(walk, child)
    } else {
        Ok(walk)
    }
}

/// The walk after the first `n` children of a sector.
pub open spec fn walk_of(children: Seq<ElementView>, found: AssemblyView, n: int) -> Result<
    Walk,
    Error,
> {
    try_fold(children, begin_walk(found), |w: Walk, c: ElementView| sector_step(w, c), n)
}

/// What is found once a sector has been walked.
pub open spec fn analyzed(sector: ElementView, found: AssemblyView) -> Result<AssemblyView, Error> {
    match walk_of(sector.children, found, sector.children.len() as int) {
        Ok(walk) => Ok(AssemblyView { groups: walk.groups, warnings: walk.warnings }),
        Err(e) => Err(e),
    }
}

/// The index of the child of a sector at which the walk fails; the number
/// of children where it does not fail.
pub open spec fn failing_child(sector: ElementView, found: AssemblyView) -> int {
    failing_index(
        sector.children,
        begin_walk(found),
        |w: Walk, c: ElementView| sector_step(w, c),
        sector.children.len() as int,
    )
}

/// Why a sector was refused, and at which of its children.
#[derive(Clone, Copy, Debug, PartialEq, Eq, Structural)]
pub struct SectorFailure {
    pub error: Error,
    pub child: usize,
}

fn lookup_module(source: &str) -> (r: Option<&'static str>)
    ensures
        match module_label(source@) {
            Some(label) => r is Some && r.unwrap()@ == label,
            None => r is None,
        },
{
    let table: [(&'static str, &'static str); 5] = [
        ("DOS-01618_RPINRx.Module", "PPS"),
        ("DOS-01618_RPORx.Module", "PPS"),
        ("DOS-01423_RPINRx.Module", "PPS"),
        ("DOS-01423_RPORx.Module", "PPS"),
        ("DOS-01475_lpwr_deep_sleep_ctrl_v2.Module", "DSCTRL"),
    ];
    let ghost keys = known_modules().map_values(|m: (Seq<char>, Seq<char>)| m.0);
    let mut i: usize = 0;
    while i < 5
        invariant
            i <= 5,
            known_modules().len() == 5,
            keys == known_modules().map_values(|m: (Seq<char>, Seq<char>)| m.0),
            forall|j: int|
                0 <= j < 5 ==> (#[trigger] table@[j]).0@ == known_modules()[j].0 && table@[j].1@
                    == known_modules()[j].1,
            forall|j: int| 0 <= j < i ==> keys[j] != source@,
        decreases 5 - i,
    {
        if text_eq(table[i].0, source) {
            proof {
                lemma_first_index_is(keys, source@, i as int);
            }
            return Some(table[i].1);
        }
        i += 1;
    }
    proof {
        lemma_first_index_is(keys, source@, 5);
    }
    None
}

fn nonempty<'a>(e: &'a Element, key: &str) -> (r: Option<&'a String>)
    ensures
        match nonempty_attribute(e@, key@) {
            Some(v) => r is Some && r.unwrap()@ == v,
            None => r is None,
        },
{
    match e.attribute(key) {
        Some(v) => if v.as_str().is_empty() {
            None
        } else {
            Some(v)
        },
        None => None,
    }
}

fn label_from(hint: &str) -> (r: Result<String, Error>)
    ensures
        view_result(r) == label_of_hint(hint@),
{
    let word = first_word_of(hint);
    if word.as_str().is_empty() {
        Err(Error::MissingPeripheralHint)
    } else {
        Ok(word)
    }
}

/// Infers the peripheral that a register belongs to.
pub fn infer_peripheral(sfr: &Element) -> (r: Result<String, Error>)
    ensures
        view_result(r) == peripheral_label(sfr@),
{
    if let Some(hint) = nonempty(sfr, "baseofperipheral") {
        return label_from(hint.as_str());
    }
    if let Some(hint) = nonempty(sfr, "memberofperipheral") {
        return label_from(hint.as_str());
    }
    if let Some(hint) = nonempty(sfr, "grp") {
        return label_from(hint.as_str());
    }
    match sfr.attribute("_modsrc") {
        Some(source) => match lookup_module(source.as_str()) {
            Some(label) => label_from(label),
            None => Err(Error::MissingPeripheralHint),
        },
        None => Err(Error::MissingPeripheralHint),
    }
}

/// Reads a register definition.
pub fn decode_register(sfr: &Element) -> (r: Result<InputRegister, Error>)
    ensures
        view_result(r) == decoded_register(sfr@),
        r matches Ok(reg) ==> reg.address >= SEGMENT_BASE,
{
    let addr_text = match sfr.attribute("_addr") {
        Some(v) => v,
        None => { return Err(Error::MissingAttribute); },
    };
    let addr = match parse_u32(addr_text.as_str()) {
        Ok(v) => v,
        Err(e) => { return Err(e); },
    };
    let name = match sfr.attribute("name") {
        Some(v) => v,
        None => { return Err(Error::MissingAttribute); },
    };
    let cname = match sfr.attribute("cname") {
        Some(v) => v,
        None => { return Err(Error::MissingAttribute); },
    };
    if *name != *cname {
        return Err(Error::NameMismatch);
    }
    let portals = match sfr.attribute("portals") {
        Some(p) => decode_portals(p.as_str()),
        None => decode_portals("- - -"),
    };
    let portals = match portals {
        Ok(p) => p,
        Err(e) => { return Err(e); },
    };
    let mclr = match sfr.attribute("mclr") {
        Some(v) => v,
        None => { return Err(Error::MissingAttribute); },
    };
    let reset = match decode_reset_pattern(mclr.as_str()) {
        Ok(v) => v,
        Err(e) => { return Err(e); },
    };
    let peripheral = match infer_peripheral(sfr) {
        Ok(v) => v,
        Err(e) => { return Err(e); },
    };
    proof {
        lemma_mapped_bounds(addr);
    }
    Ok(
        InputRegister {
            name: name.clone(),
            address: addr | SEGMENT_BASE,
            reset,
            portals,
            peripheral,
        },
    )
}

/// Finds the mode block of a register definition.
pub fn find_mode_block(sfr: &Element) -> (r: Option<&Element>)
    ensures
        match mode_block(sfr@) {
            Some(m) => r is Some && r.unwrap()@ == m,
            None => r is None,
        },
{
    match sfr.get_child("SFRModeList") {
        Some(list) => list.get_child("SFRMode"),
        None => None,
    }
}

/// The walk that the walker's variables stand for: the closed groups, then
/// the open one.
pub open spec fn walk_view(
    closed: Seq<PeripheralGroup>,
    open: Option<PeripheralGroup>,
    warnings: Seq<NameWarning>,
) -> Walk {
    Walk {
        groups: match open {
            Some(g) => group_views(closed).push(g@),
            None => group_views(closed),
        },
        open: open is Some,
        warnings: warning_views(warnings),
    }
}

/// Walks a data sector: adds to what was found the peripherals and
/// registers of its register definitions, in document order. The first
/// child that fails ends the walk, and the failure names it.
pub fn analyze_periph(periph: &Element, found: Assembly) -> (r: Result<Assembly, SectorFailure>)
    ensures
        match r {
            Ok(all) => analyzed(periph@, found@) == Ok::<AssemblyView, Error>(all@),
            Err(f) => analyzed(periph@, found@) == Err::<AssemblyView, Error>(f.error) && f.child
                == failing_child(periph@, found@),
        },
{
    let ghost children = periph@.children;
    let ghost start = found@;
    let mut closed = found.groups;
    let mut warnings = found.warnings;
    let mut open: Option<PeripheralGroup> = None;
    let sfr_def = String::from_str("SFRDef");
    proof {
        periph.lemma_view();
        assert(walk_view(closed@, open, warnings@) =~= begin_walk(start));
    }
    let mut i: usize = 0;
    while i < periph.children.len()
        invariant
            i <= periph.children@.len(),
            start == found@,
            children == periph@.children,
            children.len() == periph.children@.len(),
            forall|j: int|
                0 <= j < periph.children@.len() ==> #[trigger] children[j] == periph.children@[j]@,
            sfr_def@ == "SFRDef"@,
            open matches Some(g) ==> g.base_address >= SEGMENT_BASE,
            walk_of(children, start, i as int) == Ok::<Walk, Error>(
                walk_view(closed@, open, warnings@),
            ),
        decreases periph.children@.len() - i,
    {
        let child = &periph.children[i];
        let ghost before = walk_view(closed@, open, warnings@);
        proof {
            child.lemma_view();
            assert(children[i as int] == child@);
            assert(walk_of(children, start, i + 1) == sector_step(before, child@));
            if sector_step(before, child@) is Err {
                lemma_try_fold_error(
                    children,
                    begin_walk(start),
                    |w: Walk, c: ElementView| sector_step(w, c),
                    i + 1,
                    children.len() as int,
                );
                lemma_failing_index(
                    children,
                    begin_walk(start),
                    |w: Walk, c: ElementView| sector_step(w, c),
                    i as int,
                    children.len() as int,
                );
            }
        }
        if child.name == sfr_def {
            let reg = match decode_register(child) {
                Ok(v) => v,
                Err(e) => { return Err(SectorFailure { error: e, child: i }); },
            };
            let mode = match find_mode_block(child) {
                Some(m) => m,
                None => {
                    return Err(SectorFailure { error: Error::MissingStructure, child: i });
                },
            };
            let joins = match &open {
                Some(g) => g.name == reg.peripheral,
                None => false,
            };
            assert(joins == joins_open_group(before, reg@.peripheral));
            let mut group = match open {
                Some(g) => {
                    if joins {
                        g
                    } else {
                        if reg.address <= g.base_address {
                            return Err(
                                SectorFailure { error: Error::AddressOrderingViolation, child: i },
                            );
                        }
                        let ghost closed_before = closed@;
                        closed.push(g);
                        assert(group_views(closed@) =~= group_views(closed_before).push(g@));
                        PeripheralGroup {
                            name: reg.peripheral.clone(),
                            base_address: reg.address,
                            registers: Vec::new(),
                        }
                    }
                },
                None => PeripheralGroup {
                    name: reg.peripheral.clone(),
                    base_address: reg.address,
                    registers: Vec::new(),
                },
            };
            open = None;
            if reg.address < group.base_address {
                return Err(SectorFailure { error: Error::NegativeOffset, child: i });
            }
            let offset = reg.address - group.base_address;
            let mut layout = match build_layout(mode) {
                Ok(v) => v,
                Err(e) => { return Err(SectorFailure { error: e, child: i }); },
            };
            let ghost layout_view = layout@;
            let ghost group_before = group@;
            let ghost warnings_before = warnings@;
            synthesize(
                &mut group.registers,
                reg.name.as_str(),
                offset,
                reg.reset,
                reg.portals,
                &layout,
            );
            warnings.append(&mut layout.warnings);
            open = Some(group);
            proof {
                let regs = synthesized(
                    reg@.name,
                    offset as int,
                    reg@.reset,
                    reg@.portals,
                    layout_view,
                );
                assert(group@.registers == group_before.registers + regs);
                assert(warning_views(warnings@) =~= warning_views(warnings_before)
                    + layout_view.warnings);
                let after = register_step(before, child@).unwrap();
                assert(walk_view(closed@, open, warnings@).groups =~= after.groups);
                assert(walk_view(closed@, open, warnings@) =~= after);
            }
        }
        i += 1;
    }
    match open {
        Some(g) => {
            let ghost closed_before = closed@;
            closed.push(g);
            assert(group_views(closed@) =~= group_views(closed_before).push(g@));
        },
        None => {},
    }
    Ok(Assembly { groups: closed, warnings })
}

/// A register with an empty `memberofperipheral` hint and a `grp` hint that
/// is not empty takes its label from the `grp` hint, where no
/// `baseofperipheral` hint comes before them.
pub proof fn lemma_empty_member_hint_gives_way(sfr: ElementView)
    requires
        nonempty_attribute(sfr, "baseofperipheral"@) is None,
        sfr.attribute("memberofperipheral"@) == Some(Seq::<char>::empty()),
        nonempty_attribute(sfr, "grp"@) is Some,
    ensures
        peripheral_hint(sfr) == sfr.attribute("grp"@),
        peripheral_label(sfr) == label_of_hint(sfr.attribute("grp"@).unwrap()),
{
}

/// A register with the label of the open group joins that group: no group
/// is added, the base address stays, and the register's offset is its
/// address less that base address.
pub proof fn lemma_same_label_joins_group(walk: Walk, sfr: ElementView)
    requires
        walk.open,
        walk.groups.len() > 0,
        decoded_register(sfr) is Ok,
        mode_block(sfr) is Some,
        layout_of(mode_block(sfr).unwrap()) is Ok,
        decoded_register(sfr).unwrap().peripheral == walk.groups.last().name,
        decoded_register(sfr).unwrap().address >= walk.groups.last().base_address,
    ensures
        register_step(walk, sfr) is Ok,
        ({
            let reg = decoded_register(sfr).unwrap();
            let layout = layout_of(mode_block(sfr).unwrap()).unwrap();
            let group = walk.groups.last();
            let after = register_step(walk, sfr).unwrap();
            &&& after.open
            &&& after.groups.len() == walk.groups.len()
            &&& after.groups.drop_last() == walk.groups.drop_last()
            &&& after.groups.last().name == group.name
            &&& after.groups.last().base_address == group.base_address
            &&& after.groups.last().registers == group.registers + synthesized(
                reg.name,
                reg.address - group.base_address,
                reg.reset,
                reg.portals,
                layout,
            )
        }),
{
    let after = register_step(walk, sfr).unwrap();
    assert(after.groups.drop_last() =~= walk.groups.drop_last());
}

/// A register with another label than the open group's, and an address
/// above that group's base address, begins a group: the group comes after
/// those that are there, its base address is the register's own address,
/// and the register stands in it at offset 0.
pub proof fn lemma_new_label_begins_group(walk: Walk, sfr: ElementView)
    requires
        decoded_register(sfr) is Ok,
        mode_block(sfr) is Some,
        layout_of(mode_block(sfr).unwrap()) is Ok,
        !joins_open_group(walk, decoded_register(sfr).unwrap().peripheral),
        walk.open ==> decoded_register(sfr).unwrap().address > walk.groups.last().base_address,
    ensures
        register_step(walk, sfr) is Ok,
        ({
            let reg = decoded_register(sfr).unwrap();
            let layout = layout_of(mode_block(sfr).unwrap()).unwrap();
            let after = register_step(walk, sfr).unwrap();
            &&& after.open
            &&& after.groups == walk.groups.push(
                GroupView {
                    name: reg.peripheral,
                    base_address: reg.address,
                    registers: synthesized(reg.name, 0, reg.reset, reg.portals, layout),
                },
            )
        }),
{
}

/// A register that would begin a group at or below the base address of the
/// open group is refused.
pub proof fn lemma_base_must_increase(walk: Walk, sfr: ElementView)
    requires
        walk.open,
        decoded_register(sfr) is Ok,
        mode_block(sfr) is Some,
        decoded_register(sfr).unwrap().peripheral != walk.groups.last().name,
        decoded_register(sfr).unwrap().address <= walk.groups.last().base_address,
    ensures
        register_step(walk, sfr) == Err::<Walk, Error>(Error::AddressOrderingViolation),
{
}

/// Where the child at index `n` of a sector is such a register, the whole
/// sector is refused with `AddressOrderingViolation` at that child,
/// whatever follows.
pub proof fn lemma_ordering_violation_aborts(sector: ElementView, found: AssemblyView, n: int)
    requires
        0 <= n < sector.children.len(),
        walk_of(sector.children, found, n) is Ok,
        walk_of(sector.children, found, n).unwrap().open,
        sector.children[n].name == "SFRDef"@,
        decoded_register(sector.children[n]) is Ok,
        mode_block(sector.children[n]) is Some,
        decoded_register(sector.children[n]).unwrap().peripheral != walk_of(
            sector.children,
            found,
            n,
        ).unwrap().groups.last().name,
        decoded_register(sector.children[n]).unwrap().address <= walk_of(
            sector.children,
            found,
            n,
        ).unwrap().groups.last().base_address,
    ensures
        analyzed(sector, found) == Err::<AssemblyView, Error>(Error::AddressOrderingViolation),
        failing_child(sector, found) == n,
{
    let walk = walk_of(sector.children, found, n).unwrap();
    lemma_base_must_increase(walk, sector.children[n]);
    assert(walk_of(sector.children, found, n + 1) == sector_step(walk, sector.children[n]));
    lemma_try_fold_error(
        sector.children,
        begin_walk(found),
        |w: Walk, c: ElementView| sector_step(w, c),
        n + 1,
        sector.children.len() as int,
    );
    lemma_failing_index(
        sector.children,
        begin_walk(found),
        |w: Walk, c: ElementView| sector_step(w, c),
        n,
        sector.children.len() as int,
    );
}

/// From index `from` on, each group begins above the one before it.
pub open spec fn bases_increase(groups: Seq<GroupView>, from: int) -> bool {
    forall|i: int, j: int|
        from <= i < j < groups.len() ==> (#[trigger] groups[i]).base_address
            < (#[trigger] groups[j]).base_address
}

/// While a sector is walked, the groups that were there stay as they were,
/// a group is open exactly when the sector has begun one, and the groups
/// that the sector has begun have strictly increasing base addresses.
pub proof fn lemma_bases_increase(children: Seq<ElementView>, found: AssemblyView, n: int)
    requires
        0 <= n <= children.len(),
        walk_of(children, found, n) is Ok,
    ensures
        ({
            let walk = walk_of(children, found, n).unwrap();
            &&& walk.groups.len() >= found.groups.len()
            &&& walk.groups.take(found.groups.len() as int) == found.groups
            &&& walk.open <==> walk.groups.len() > found.groups.len()
            &&& bases_increase(walk.groups, found.groups.len() as int)
        }),
    decreases n,
{
    let kept = found.groups.len() as int;
    if n == 0 {
        assert(found.groups.take(kept) =~= found.groups);
    } else {
        let before = walk_of(children, found, n - 1);
        assert(before is Ok);
        lemma_bases_increase(children, found, n - 1);
        let walk = before.unwrap();
        let after = walk_of(children, found, n).unwrap();
        assert(after == sector_step(walk, children[n - 1]).unwrap());
        if children[n - 1].name == "SFRDef"@ {
            let last = after.groups.len() - 1;
            assert(after.groups.take(kept) =~= walk.groups.take(kept));
            let open_before = walk.groups.len() - 1;
            assert forall|i: int, j: int| kept <= i < j < after.groups.len() implies {
                (#[trigger] after.groups[i]).base_address
                    < (#[trigger] after.groups[j]).base_address
            } by {
                assert(after.groups[i] == walk.groups[i]);
                if j < last {
                    assert(after.groups[j] == walk.groups[j]);
                } else if i < open_before {
                    assert(walk.groups[i].base_address < walk.groups[open_before].base_address);
                }
            }
        }
    }
}

} // verus!
