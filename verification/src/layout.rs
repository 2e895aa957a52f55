//! The field layout of a register: the bit range of each field of a mode
//! block.

use crate::error::{lemma_try_fold_error, try_fold, view_result, Error};
use crate::numeral::{address_literal, parse_u32};
use crate::tree::{Element, ElementView};
use vstd::prelude::*;

verus! {

/// A field of a register and the bits it takes.
pub struct FieldDescriptor {
    pub name: String,
    pub msb: u32,
    pub lsb: u32,
}

/// A field as a mathematical value.
pub struct FieldView {
    pub name: Seq<char>,
    pub msb: int,
    pub lsb: int,
}

impl View for FieldDescriptor {
    type V = FieldView;

    open spec fn view(&self) -> FieldView {
        FieldView { name: self.name@, msb: self.msb as int, lsb: self.lsb as int }
    }
}

/// A field definition whose display name differs from its canonical name.
pub struct NameWarning {
    pub cname: String,
    pub name: String,
}

/// A name warning as a mathematical value.
pub struct NameWarningView {
    pub cname: Seq<char>,
    pub name: Seq<char>,
}

impl View for NameWarning {
    type V = NameWarningView;

    open spec fn view(&self) -> NameWarningView {
        NameWarningView { cname: self.cname@, name: self.name@ }
    }
}

/// The fields of a mode block in order, the bit position after the last
/// entry, and the field definitions whose two names differ.
pub struct Layout {
    pub fields: Vec<FieldDescriptor>,
    pub cursor: u32,
    pub warnings: Vec<NameWarning>,
}

/// A layout as a mathematical value.
#[verifier::ext_equal]
pub struct LayoutView {
    pub fields: Seq<FieldView>,
    pub cursor: int,
    pub warnings: Seq<NameWarningView>,
}

/// The views of the fields of a list, in order.
pub open spec fn field_views(fields: Seq<FieldDescriptor>) -> Seq<FieldView> {
    fields.map_values(|f: FieldDescriptor| f@)
}

/// The views of the warnings of a list, in order.
pub open spec fn warning_views(warnings: Seq<NameWarning>) -> Seq<NameWarningView> {
    warnings.map_values(|w: NameWarning| w@)
}

impl View for Layout {
    type V = LayoutView;

    open spec fn view(&self) -> LayoutView {
        LayoutView {
            fields: field_views(self.fields@),
            cursor: self.cursor as int,
            warnings: warning_views(self.warnings@),
        }
    }
}

/// The layout before any entry.
pub open spec fn empty_layout() -> LayoutView {
    LayoutView { fields: Seq::empty(), cursor: 0, warnings: Seq::empty() }
}

/// The layout after a field definition: the field takes `width` bits from
/// the cursor up, and the cursor moves past them.
pub open spec fn with_field(
    acc: LayoutView,
    cname: Seq<char>,
    name: Seq<char>,
    width: int,
) -> LayoutView {
    LayoutView {
        fields: acc.fields.push(
            FieldView { name: cname, msb: acc.cursor + width - 1, lsb: acc.cursor },
        ),
        cursor: acc.cursor + width,
        warnings: if cname == name {
            acc.warnings
        } else {
            acc.warnings.push(NameWarningView { cname, name })
        },
    }
}

/// The layout after an adjustment: the cursor moves and no field is added.
pub open spec fn with_gap(acc: LayoutView, offset: int) -> LayoutView {
    LayoutView { cursor: acc.cursor + offset, ..acc }
}

/// The layout after one more entry of a mode block.
pub open spec fn layout_step(acc: LayoutView, entry: ElementView) -> Result<LayoutView, Error> {
    if entry.name == "SFRFieldDef"@ {
        let cname = entry.attribute("cname"@);
        let name = entry.attribute("name"@);
        let width = entry.attribute("nzwidth"@);
        if cname is None || name is None || width is None {
            Err(Error::MissingAttribute)
        } else if address_literal(width.unwrap()) is None {
            Err(Error::MalformedNumber)
        } else {
            let w = address_literal(width.unwrap()).unwrap() as int;
            if 1 <= acc.cursor + w <= u32::MAX {
                Ok(with_field(acc, cname.unwrap(), name.unwrap(), w))
            } else {
                Err(Error::BitRangeOverflow)
            }
        }
    } else if entry.name == "AdjustPoint"@ {
        let offset = entry.attribute("offset"@);
        if offset is None {
            Err(Error::MissingAttribute)
        } else if address_literal(offset.unwrap()) is None {
            Err(Error::MalformedNumber)
        } else {
            let o = address_literal(offset.unwrap()).unwrap() as int;
            if acc.cursor + o <= u32::MAX {
                Ok(with_gap(acc, o))
            } else {
                Err(Error::BitRangeOverflow)
            }
        }
    } else {
        Err(Error::UnexpectedFieldEntry)
    }
}

/// The layout after the first `n` entries.
pub open spec fn layout_of_entries(entries: Seq<ElementView>, n: int) -> Result<LayoutView, Error> {
    try_fold(entries, empty_layout(), |acc: LayoutView, e: ElementView| layout_step(acc, e), n)
}

/// The layout of a mode block: of all its children, in order. The width of
/// the register is not held against it: fields may lie above bit 31.
pub open spec fn layout_of(mode: ElementView) -> Result<LayoutView, Error> {
    layout_of_entries(mode.children, mode.children.len() as int)
}

/// Lays out the fields of a mode block.
pub fn build_layout(mode: &Element) -> (r: Result<Layout, Error>)
    ensures
        view_result(r) == layout_of(mode@),
{
    let mut layout = Layout { fields: Vec::new(), cursor: 0, warnings: Vec::new() };
    let ghost entries = mode@.children;
    let ghost step = |acc: LayoutView, e: ElementView| layout_step(acc, e);
    proof {
        mode.lemma_view();
        assert(layout@ =~= empty_layout());
    }
    let field_def = String::from_str("SFRFieldDef");
    let adjust_point = String::from_str("AdjustPoint");
    let mut i: usize = 0;
    while i < mode.children.len()
        invariant
            i <= mode.children@.len(),
            entries == mode@.children,
            entries.len() == mode.children@.len(),
            forall|j: int|
                0 <= j < mode.children@.len() ==> #[trigger] entries[j] == mode.children@[j]@,
            field_def@ == "SFRFieldDef"@,
            adjust_point@ == "AdjustPoint"@,
            layout_of_entries(entries, i as int) == Ok::<LayoutView, Error>(layout@),
        decreases mode.children@.len() - i,
    {
        let entry = &mode.children[i];
        let ghost before = layout@;
        proof {
            entry.lemma_view();
            assert(entries[i as int] == entry@);
            assert(layout_of_entries(entries, i + 1) == layout_step(before, entry@));
            if layout_step(before, entry@) is Err {
                lemma_try_fold_error(
                    entries,
                    empty_layout(),
                    |acc: LayoutView, e: ElementView| layout_step(acc, e),
                    i + 1,
                    entries.len() as int,
                );
            }
        }
        if entry.name == field_def {
            let cname = match entry.attribute("cname") {
                Some(v) => v,
                None => { return Err(Error::MissingAttribute); },
            };
            let name = match entry.attribute("name") {
                Some(v) => v,
                None => { return Err(Error::MissingAttribute); },
            };
            let width_text = match entry.attribute("nzwidth") {
                Some(v) => v,
                None => { return Err(Error::MissingAttribute); },
            };
            let width = match parse_u32(width_text.as_str()) {
                Ok(v) => v,
                Err(e) => { return Err(e); },
            };
            let end = match layout.cursor.checked_add(width) {
                Some(v) => v,
                None => { return Err(Error::BitRangeOverflow); },
            };
            if end == 0 {
                return Err(Error::BitRangeOverflow);
            }
            if *cname != *name {
                layout.warnings.push(NameWarning { cname: cname.clone(), name: name.clone() });
            }
            layout.fields.push(
                FieldDescriptor { name: cname.clone(), msb: end - 1, lsb: layout.cursor },
            );
            layout.cursor = end;
            assert(layout@ =~= with_field(before, cname@, name@, width as int));
        } else if entry.name == adjust_point {
            let offset_text = match entry.attribute("offset") {
                Some(v) => v,
                None => { return Err(Error::MissingAttribute); },
            };
            let offset = match parse_u32(offset_text.as_str()) {
                Ok(v) => v,
                Err(e) => { return Err(e); },
            };
            let end = match layout.cursor.checked_add(offset) {
                Some(v) => v,
                None => { return Err(Error::BitRangeOverflow); },
            };
            layout.cursor = end;
            assert(layout@ =~= with_gap(before, offset as int));
        } else {
            return Err(Error::UnexpectedFieldEntry);
        }
        i += 1;
    }
    Ok(layout)
}

/// The fields of a layout stand in ascending order and do not overlap:
/// each begins above the one before it and ends below the cursor.
pub open spec fn ordered(layout: LayoutView) -> bool {
    &&& 0 <= layout.cursor <= u32::MAX
    &&& forall|i: int|
        0 <= i < layout.fields.len() ==> 0 <= (#[trigger] layout.fields[i]).lsb
            <= layout.fields[i].msb + 1 <= layout.cursor
    &&& forall|i: int, j: int|
        0 <= i < j < layout.fields.len() ==> (#[trigger] layout.fields[i]).msb
            < (#[trigger] layout.fields[j]).lsb
}

/// Every layout that the entries of a mode block give is ordered.
pub proof fn lemma_layout_is_ordered(entries: Seq<ElementView>, n: int)
    requires
        0 <= n <= entries.len(),
        layout_of_entries(entries, n) is Ok,
    ensures
        ordered(layout_of_entries(entries, n).unwrap()),
    decreases n,
{
    if n > 0 {
        let before = layout_of_entries(entries, n - 1);
        assert(before is Ok);
        lemma_layout_is_ordered(entries, n - 1);
        let acc = before.unwrap();
        let after = layout_of_entries(entries, n).unwrap();
        assert(after == layout_step(acc, entries[n - 1]).unwrap());
        if entries[n - 1].name == "SFRFieldDef"@ {
            let last = after.fields.len() - 1;
            assert forall|i: int| 0 <= i < after.fields.len() implies {
                let f = #[trigger] after.fields[i];
                0 <= f.lsb <= f.msb + 1 <= after.cursor
            } by {
                if i < last {
                    assert(after.fields[i] == acc.fields[i]);
                }
            }
            assert forall|i: int, j: int| 0 <= i < j < after.fields.len() implies {
                (#[trigger] after.fields[i]).msb < (#[trigger] after.fields[j]).lsb
            } by {
                assert(after.fields[i] == acc.fields[i]);
                if j < last {
                    assert(after.fields[j] == acc.fields[j]);
                }
            }
        }
    }
}

} // verus!
