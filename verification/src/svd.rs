//! The output tree: a device with its peripherals, registers and fields as
//! elements.

use crate::document::{DocumentView, OutputDocument};
use crate::layout::{field_views, FieldDescriptor, FieldView};
use crate::numeral::{
    bit_range_string, bit_range_text, decimal_string, decimal_text, hex_string, hex_text,
};
use crate::peripheral::{group_views, GroupView, PeripheralGroup};
use crate::register::{register_views, OutputRegister, RegisterView};
use crate::tree::{add_elem_with_text, Element, ElementView};
use vstd::prelude::*;

verus! {

/// An element with a name and children, without attributes or text.
pub open spec fn branch(name: Seq<char>, children: Seq<ElementView>) -> ElementView {
    ElementView { name, attributes: Seq::empty(), children, text: None }
}

/// A `field` element: the name of the field and its bit range.
pub open spec fn field_element(f: FieldView) -> ElementView {
    branch(
        "field"@,
        seq![
            ElementView::text_leaf("name"@, f.name),
            ElementView::text_leaf("bitRange"@, bit_range_text(f.msb, f.lsb)),
        ],
    )
}

/// A `fields` element: one `field` for each field, in order.
pub open spec fn fields_element(fields: Seq<FieldView>) -> ElementView {
    branch("fields"@, fields.map_values(|f: FieldView| field_element(f)))
}

/// The children that every `register` element has: its name and
/// description, its offset in hexadecimal, its size and its reset value in
/// decimal.
pub open spec fn register_head(r: RegisterView) -> Seq<ElementView> {
    seq![
        ElementView::text_leaf("name"@, r.name),
        ElementView::text_leaf("description"@, r.description),
        ElementView::text_leaf("addressOffset"@, hex_text(r.address_offset)),
        ElementView::text_leaf("size"@, decimal_text(r.size)),
        ElementView::text_leaf("resetValue"@, decimal_text(r.reset_value)),
    ]
}

/// A `register` element; its `fields` come last, where it has a field
/// list.
pub open spec fn register_element(r: RegisterView) -> ElementView {
    branch(
        "register"@,
        match r.fields {
            Some(fields) => register_head(r).push(fields_element(fields)),
            None => register_head(r),
        },
    )
}

/// A `registers` element: one `register` for each register, in order.
pub open spec fn registers_element(registers: Seq<RegisterView>) -> ElementView {
    branch("registers"@, registers.map_values(|r: RegisterView| register_element(r)))
}

/// A `peripheral` element: its name, a description made of the name, its
/// base address in hexadecimal, and its registers.
pub open spec fn peripheral_element(g: GroupView) -> ElementView {
    branch(
        "peripheral"@,
        seq![
            ElementView::text_leaf("name"@, g.name),
            ElementView::text_leaf("description"@, g.name + " peripheral"@),
            ElementView::text_leaf("baseAddress"@, hex_text(g.base_address)),
            registers_element(g.registers),
        ],
    )
}

/// A `peripherals` element: one `peripheral` for each group, in order.
pub open spec fn peripherals_element(groups: Seq<GroupView>) -> ElementView {
    branch("peripherals"@, groups.map_values(|g: GroupView| peripheral_element(g)))
}

/// The `device` element: the name of the device, then its peripherals.
pub open spec fn device_element(doc: DocumentView) -> ElementView {
    branch(
        "device"@,
        seq![ElementView::text_leaf("name"@, doc.name), peripherals_element(doc.peripherals)],
    )
}

/// Builds the element of a field.
pub fn field_to_element(field: &FieldDescriptor) -> (e: Element)
    ensures
        e@ == field_element(field@),
{
    let mut e = Element::new("field");
    add_elem_with_text(&mut e, "name", field.name.as_str());
    add_elem_with_text(&mut e, "bitRange", bit_range_string(field.msb, field.lsb).as_str());
    assert(e@.children =~= field_element(field@).children);
    e
}

/// Builds the element of a field list.
pub fn fields_to_element(fields: &Vec<FieldDescriptor>) -> (e: Element)
    ensures
        e@ == fields_element(field_views(fields@)),
{
    let mut e = Element::new("fields");
    let ghost views = field_views(fields@);
    assert(e@.children =~= views.take(0).map_values(|f: FieldView| field_element(f)));
    let mut i: usize = 0;
    while i < fields.len()
        invariant
            i <= fields@.len(),
            views == field_views(fields@),
            e@ == branch("fields"@, views.take(i as int).map_values(|f: FieldView| field_element(f))),
        decreases fields@.len() - i,
    {
        let child = field_to_element(&fields[i]);
        e.push_child(child);
        assert(fields@[i as int]@ == views[i as int]);
        assert(e@.children =~= views.take(i + 1).map_values(|f: FieldView| field_element(f)));
        i += 1;
    }
    assert(views.take(fields@.len() as int) =~= views);
    e
}

/// Builds the element of a register.
pub fn register_to_element(register: &OutputRegister) -> (e: Element)
    ensures
        e@ == register_element(register@),
{
    let mut e = Element::new("register");
    add_elem_with_text(&mut e, "name", register.name.as_str());
    add_elem_with_text(&mut e, "description", register.description.as_str());
    add_elem_with_text(&mut e, "addressOffset", hex_string(register.address_offset).as_str());
    add_elem_with_text(&mut e, "size", decimal_string(register.size).as_str());
    add_elem_with_text(&mut e, "resetValue", decimal_string(register.reset_value).as_str());
    assert(e@.children =~= register_head(register@));
    match &register.fields {
        Some(fields) => {
            let child = fields_to_element(fields);
            e.push_child(child);
        },
        None => {},
    }
    assert(e@.children =~= register_element(register@).children);
    e
}

/// Builds the element of a register list.
pub fn registers_to_element(registers: &Vec<OutputRegister>) -> (e: Element)
    ensures
        e@ == registers_element(register_views(registers@)),
{
    let mut e = Element::new("registers");
    let ghost views = register_views(registers@);
    assert(e@.children =~= views.take(0).map_values(|r: RegisterView| register_element(r)));
    let mut i: usize = 0;
    while i < registers.len()
        invariant
            i <= registers@.len(),
            views == register_views(registers@),
            e@ == branch(
                "registers"@,
                views.take(i as int).map_values(|r: RegisterView| register_element(r)),
            ),
        decreases registers@.len() - i,
    {
        let child = register_to_element(&registers[i]);
        e.push_child(child);
        assert(registers@[i as int]@ == views[i as int]);
        assert(e@.children =~= views.take(i + 1).map_values(
            |r: RegisterView| register_element(r),
        ));
        i += 1;
    }
    assert(views.take(registers@.len() as int) =~= views);
    e
}

/// Builds the element of a peripheral.
pub fn peripheral_to_element(group: &PeripheralGroup) -> (e: Element)
    ensures
        e@ == peripheral_element(group@),
{
    let mut e = Element::new("peripheral");
    add_elem_with_text(&mut e, "name", group.name.as_str());
    let description = group.name.clone().concat(" peripheral");
    add_elem_with_text(&mut e, "description", description.as_str());
    add_elem_with_text(&mut e, "baseAddress", hex_string(group.base_address).as_str());
    let registers = registers_to_element(&group.registers);
    e.push_child(registers);
    assert(e@.children =~= peripheral_element(group@).children);
    e
}

/// Builds the element of a peripheral list.
pub fn peripherals_to_element(groups: &Vec<PeripheralGroup>) -> (e: Element)
    ensures
        e@ == peripherals_element(group_views(groups@)),
{
    let mut e = Element::new("peripherals");
    let ghost views = group_views(groups@);
    assert(e@.children =~= views.take(0).map_values(|g: GroupView| peripheral_element(g)));
    let mut i: usize = 0;
    while i < groups.len()
        invariant
            i <= groups@.len(),
            views == group_views(groups@),
            e@ == branch(
                "peripherals"@,
                views.take(i as int).map_values(|g: GroupView| peripheral_element(g)),
            ),
        decreases groups@.len() - i,
    {
        let child = peripheral_to_element(&groups[i]);
        e.push_child(child);
        assert(groups@[i as int]@ == views[i as int]);
        assert(e@.children =~= views.take(i + 1).map_values(
            |g: GroupView| peripheral_element(g),
        ));
        i += 1;
    }
    assert(views.take(groups@.len() as int) =~= views);
    e
}

/// Builds the tree of the output document.
pub fn device_to_element(doc: &OutputDocument) -> (e: Element)
    ensures
        e@ == device_element(doc@),
{
    let mut e = Element::new("device");
    add_elem_with_text(&mut e, "name", doc.name.as_str());
    let peripherals = peripherals_to_element(&doc.peripherals);
    e.push_child(peripherals);
    assert(e@.children =~= device_element(doc@).children);
    e
}

} // verus!
