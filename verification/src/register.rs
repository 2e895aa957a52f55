//! The registers that one register definition gives: the register itself
//! and, where it has portals, its clear, set and invert aliases.

use crate::layout::{field_views, FieldDescriptor, FieldView, Layout, LayoutView};
use crate::portals::Portals;
use vstd::prelude::*;

verus! {

/// A register of the output: its offset counts from the base address of
/// its peripheral.
pub struct OutputRegister {
    pub name: String,
    pub description: String,
    pub address_offset: u32,
    pub size: u32,
    pub reset_value: u32,
    pub fields: Option<Vec<FieldDescriptor>>,
}

/// A register as a mathematical value.
#[verifier::ext_equal]
pub struct RegisterView {
    pub name: Seq<char>,
    pub description: Seq<char>,
    pub address_offset: int,
    pub size: int,
    pub reset_value: int,
    pub fields: Option<Seq<FieldView>>,
}

impl View for OutputRegister {
    type V = RegisterView;

    open spec fn view(&self) -> RegisterView {
        RegisterView {
            name: self.name@,
            description: self.description@,
            address_offset: self.address_offset as int,
            size: self.size as int,
            reset_value: self.reset_value as int,
            fields: match self.fields {
                Some(f) => Some(field_views(f@)),
                None => None,
            },
        }
    }
}

/// The views of the registers of a list, in order.
pub open spec fn register_views(registers: Seq<OutputRegister>) -> Seq<RegisterView> {
    registers.map_values(|r: OutputRegister| r@)
}

/// The width of every register, in bits.
pub const REGISTER_SIZE: u32 = 32;

/// The register with the given name, offset and reset value. It has the
/// fields of the layout where the layout takes any bits, and no field list
/// where it takes none.
pub open spec fn register_of(
    name: Seq<char>,
    offset: int,
    reset: int,
    layout: LayoutView,
) -> RegisterView {
    RegisterView {
        name,
        description: name + " register"@,
        address_offset: offset,
        size: 32,
        reset_value: reset,
        fields: if layout.cursor > 0 {
            Some(layout.fields)
        } else {
            None
        },
    }
}

/// The alias of a register `distance` bytes after it: its name has the
/// suffix, and its reset value is 0, as what is read from it is undefined.
pub open spec fn alias_of(
    name: Seq<char>,
    suffix: Seq<char>,
    offset: int,
    distance: int,
    layout: LayoutView,
) -> RegisterView {
    register_of(name + suffix, offset + distance, 0, layout)
}

/// The registers of one register definition: the register, then its `CLR`
/// alias 4 bytes on, its `SET` alias 8 bytes on and its `INV` alias 12 bytes
/// on, each where the portals have it.
pub open spec fn synthesized(
    name: Seq<char>,
    offset: int,
    reset: int,
    portals: Portals,
    layout: LayoutView,
) -> Seq<RegisterView> {
    seq![register_of(name, offset, reset, layout)] + (if portals.clr {
        seq![alias_of(name, "CLR"@, offset, 4, layout)]
    } else {
        Seq::empty()
    }) + (if portals.set {
        seq![alias_of(name, "SET"@, offset, 8, layout)]
    } else {
        Seq::empty()
    }) + (if portals.inv {
        seq![alias_of(name, "INV"@, offset, 12, layout)]
    } else {
        Seq::empty()
    })
}

/// A copy of a field list.
pub fn clone_fields(fields: &Vec<FieldDescriptor>) -> (copy: Vec<FieldDescriptor>)
    ensures
        field_views(copy@) == field_views(fields@),
{
    let mut copy: Vec<FieldDescriptor> = Vec::new();
    let mut i: usize = 0;
    while i < fields.len()
        invariant
            i <= fields@.len(),
            field_views(copy@) == field_views(fields@).take(i as int),
        decreases fields@.len() - i,
    {
        let f = &fields[i];
        let ghost before = field_views(copy@);
        copy.push(FieldDescriptor { name: f.name.clone(), msb: f.msb, lsb: f.lsb });
        assert(field_views(copy@) =~= before.push(f@));
        assert(field_views(fields@).take(i + 1) =~= field_views(fields@).take(i as int).push(f@));
        i += 1;
    }
    assert(field_views(fields@).take(fields@.len() as int) =~= field_views(fields@));
    copy
}

/// The register with the given name, offset and reset value, and the
/// fields of the layout.
pub fn make_register(name: &str, offset: u32, reset_val: u32, layout: &Layout) -> (reg:
    OutputRegister)
    ensures
        reg@ == register_of(name@, offset as int, reset_val as int, layout@),
{
    let fields = if layout.cursor > 0 {
        Some(clone_fields(&layout.fields))
    } else {
        None
    };
    OutputRegister {
        name: String::from_str(name),
        description: String::from_str(name).concat(" register"),
        address_offset: offset,
        size: REGISTER_SIZE,
        reset_value: reset_val,
        fields,
    }
}

/// Adds one register to a register list.
pub fn add_register(
    registers: &mut Vec<OutputRegister>,
    name: &str,
    offset: u32,
    reset_val: u32,
    layout: &Layout,
)
    ensures
        register_views(final(registers)@) == register_views(old(registers)@).push(
            register_of(name@, offset as int, reset_val as int, layout@),
        ),
{
    let reg = make_register(name, offset, reset_val, layout);
    registers.push(reg);
    assert(register_views(registers@) =~= register_views(old(registers)@).push(reg@));
}

/// Adds to a register list the registers of one register definition.
pub fn synthesize(
    registers: &mut Vec<OutputRegister>,
    name: &str,
    offset: u32,
    reset_val: u32,
    portals: Portals,
    layout: &Layout,
)
    requires
        portals.clr ==> offset + 4 <= u32::MAX,
        portals.set ==> offset + 8 <= u32::MAX,
        portals.inv ==> offset + 12 <= u32::MAX,
    ensures
        register_views(final(registers)@) == register_views(old(registers)@) + synthesized(
            name@,
            offset as int,
            reset_val as int,
            portals,
            layout@,
        ),
{
    add_register(registers, name, offset, reset_val, layout);
    if portals.clr {
        let alias = String::from_str(name).concat("CLR");
        add_register(registers, alias.as_str(), offset + 4, 0, layout);
    }
    if portals.set {
        let alias = String::from_str(name).concat("SET");
        add_register(registers, alias.as_str(), offset + 8, 0, layout);
    }
    if portals.inv {
        let alias = String::from_str(name).concat("INV");
        add_register(registers, alias.as_str(), offset + 12, 0, layout);
    }
    assert(register_views(registers@) =~= register_views(old(registers)@) + synthesized(
        name@,
        offset as int,
        reset_val as int,
        portals,
        layout@,
    ));
}

/// A register with all three portals gives four registers: itself, then
/// its aliases 4, 8 and 12 bytes on, named with `CLR`, `SET` and `INV` after
/// its name, each with reset value 0 whatever its own reset value is, and
/// each with its field layout.
pub proof fn lemma_all_portals_give_four(
    name: Seq<char>,
    offset: int,
    reset: int,
    layout: LayoutView,
)
    ensures
        ({
            let regs = synthesized(
                name,
                offset,
                reset,
                Portals { clr: true, set: true, inv: true },
                layout,
            );
            &&& regs.len() == 4
            &&& regs[0] == register_of(name, offset, reset, layout)
            &&& regs[1] == register_of(name + "CLR"@, offset + 4, 0, layout)
            &&& regs[2] == register_of(name + "SET"@, offset + 8, 0, layout)
            &&& regs[3] == register_of(name + "INV"@, offset + 12, 0, layout)
            &&& forall|i: int| 1 <= i < 4 ==> (#[trigger] regs[i]).reset_value == 0
            &&& forall|i: int| 0 <= i < 4 ==> (#[trigger] regs[i]).fields == regs[0].fields
        }),
{
}

/// A register without portals gives one register: itself.
pub proof fn lemma_no_portals_give_one(name: Seq<char>, offset: int, reset: int, layout: LayoutView)
    ensures
        synthesized(name, offset, reset, Portals { clr: false, set: false, inv: false }, layout)
            == seq![register_of(name, offset, reset, layout)],
{
    assert(synthesized(
        name,
        offset,
        reset,
        Portals { clr: false, set: false, inv: false },
        layout,
    ) =~= seq![register_of(name, offset, reset, layout)]);
}

} // verus!
