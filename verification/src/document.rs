//! The conversion of a device description: from the tree of the input
//! document to the peripherals of the output.

use crate::error::{failing_index, lemma_failing_index, lemma_try_fold_error, try_fold, Error};
use crate::layout::{warning_views, NameWarning, NameWarningView};
use crate::peripheral::{
    analyze_periph, analyzed, failing_child, group_views, Assembly, AssemblyView, GroupView,
    PeripheralGroup,
};
use crate::text::{begins_with, starts_with};
use crate::tree::{Element, ElementView};
use vstd::prelude::*;

verus! {

/// A device of the output: its name and its peripherals, in the order in
/// which the input gave them.
pub struct OutputDocument {
    pub name: String,
    pub peripherals: Vec<PeripheralGroup>,
}

/// A document as a mathematical value.
#[verifier::ext_equal]
pub struct DocumentView {
    pub name: Seq<char>,
    pub peripherals: Seq<GroupView>,
}

impl View for OutputDocument {
    type V = DocumentView;

    open spec fn view(&self) -> DocumentView {
        DocumentView { name: self.name@, peripherals: group_views(self.peripherals@) }
    }
}

/// What a conversion gives: the document, and the field definitions whose
/// two names differ, which is worth a warning and no more.
pub struct Conversion {
    pub document: OutputDocument,
    pub warnings: Vec<NameWarning>,
}

/// A conversion as a mathematical value.
#[verifier::ext_equal]
pub struct ConversionView {
    pub document: DocumentView,
    pub warnings: Seq<NameWarningView>,
}

impl View for Conversion {
    type V = ConversionView;

    open spec fn view(&self) -> ConversionView {
        ConversionView { document: self.document@, warnings: warning_views(self.warnings@) }
    }
}

/// The region that a sector lies in; none is the empty text.
pub open spec fn region_of(sector: ElementView) -> Seq<char> {
    match sector.attribute("regionid"@) {
        Some(region) => region,
        None => Seq::empty(),
    }
}

/// Whether a child of the physical address space is a data sector of a
/// peripheral region. Only these are converted.
pub open spec fn is_peripheral_sector(e: ElementView) -> bool {
    e.name == "SFRDataSector"@ && begins_with(region_of(e), "periph"@)
}

/// What is found after one more child of the physical address space.
pub open spec fn space_step(found: AssemblyView, child: ElementView) -> Result<
    AssemblyView,
    Error,
> {
    if is_peripheral_sector(child) {
        analyzed(child, found)
    } else {
        Ok(found)
    }
}

/// Nothing found yet.
pub open spec fn nothing_found() -> AssemblyView {
    AssemblyView { groups: Seq::empty(), warnings: Seq::empty() }
}

/// What is found in the first `n` children of the physical address space.
pub open spec fn found_in(children: Seq<ElementView>, n: int) -> Result<AssemblyView, Error> {
    try_fold(
        children,
        nothing_found(),
        |found: AssemblyView, c: ElementView| space_step(found, c),
        n,
    )
}

/// The conversion of a device element. It needs a `name` attribute and a
/// `PhysicalSpace` child; the first that is missing decides the error.
pub open spec fn converted(device: ElementView) -> Result<ConversionView, Error> {
    if device.attribute("name"@) is None {
        Err(Error::MissingAttribute)
    } else if device.child("PhysicalSpace"@) is None {
        Err(Error::MissingStructure)
    } else {
        let space = device.child("PhysicalSpace"@).unwrap();
        match found_in(space.children, space.children.len() as int) {
            Ok(found) => Ok(
                ConversionView {
                    document: DocumentView {
                        name: device.attribute("name"@).unwrap(),
                        peripherals: found.groups,
                    },
                    warnings: found.warnings,
                },
            ),
            Err(e) => Err(e),
        }
    }
}

/// Where a conversion failed: the child of the physical address space that
/// is the sector, and the child of the sector.
#[derive(Clone, Copy, Debug, PartialEq, Eq, Structural)]
pub struct Place {
    pub sector: usize,
    pub child: usize,
}

/// Why a conversion was abandoned, and at which place; at none where the
/// device element itself lacks what is required.
#[derive(Clone, Copy, Debug, PartialEq, Eq, Structural)]
pub struct Failure {
    pub error: Error,
    pub place: Option<Place>,
}

/// The place at which the conversion of a device element fails, as the
/// index of the sector and the index of its child.
pub open spec fn failing_place(device: ElementView) -> Option<(int, int)> {
    if device.attribute("name"@) is None || device.child("PhysicalSpace"@) is None {
        None
    } else {
        let sectors = device.child("PhysicalSpace"@).unwrap().children;
        let k = failing_index(
            sectors,
            nothing_found(),
            |found: AssemblyView, c: ElementView| space_step(found, c),
            sectors.len() as int,
        );
        if k < sectors.len() {
            Some((k, failing_child(sectors[k], found_in(sectors, k).unwrap())))
        } else {
            None
        }
    }
}

/// The place of a failure as a pair of indices.
pub open spec fn place_view(place: Option<Place>) -> Option<(int, int)> {
    match place {
        Some(p) => Some((p.sector as int, p.child as int)),
        None => None,
    }
}

fn peripheral_sector(e: &Element) -> (r: bool)
    ensures
        r == is_peripheral_sector(e@),
{
    proof {
        e.lemma_view();
    }
    if e.name != String::from_str("SFRDataSector") {
        return false;
    }
    match e.attribute("regionid") {
        Some(region) => starts_with(region.as_str(), "periph"),
        None => {
            proof {
                reveal_strlit("");
                assert(""@ =~= Seq::<char>::empty());
            }
            starts_with("", "periph")
        },
    }
}

/// Converts a device description. The first failure in document order
/// ends the conversion.
pub fn convert(device: &Element) -> (r: Result<Conversion, Failure>)
    ensures
        match r {
            Ok(c) => converted(device@) == Ok::<ConversionView, Error>(c@),
            Err(f) => converted(device@) == Err::<ConversionView, Error>(f.error) && place_view(
                f.place,
            ) == failing_place(device@),
        },
{
    let name = match device.attribute("name") {
        Some(v) => v,
        None => { return Err(Failure { error: Error::MissingAttribute, place: None }); },
    };
    let space = match device.get_child("PhysicalSpace") {
        Some(v) => v,
        None => { return Err(Failure { error: Error::MissingStructure, place: None }); },
    };
    let ghost children = space@.children;
    let mut found = Assembly { groups: Vec::new(), warnings: Vec::new() };
    proof {
        space.lemma_view();
        assert(found@ =~= nothing_found());
    }
    let mut i: usize = 0;
    while i < space.children.len()
        invariant
            i <= space.children@.len(),
            children == space@.children,
            children.len() == space.children@.len(),
            forall|j: int|
                0 <= j < space.children@.len() ==> #[trigger] children[j] == space.children@[j]@,
            device@.attribute("name"@) == Some(name@),
            device@.child("PhysicalSpace"@) == Some(space@),
            found_in(children, i as int) == Ok::<AssemblyView, Error>(found@),
        decreases space.children@.len() - i,
    {
        let child = &space.children[i];
        proof {
            assert(children[i as int] == child@);
            assert(found_in(children, i + 1) == space_step(found@, child@));
            if space_step(found@, child@) is Err {
                lemma_try_fold_error(
                    children,
                    nothing_found(),
                    |found: AssemblyView, c: ElementView| space_step(found, c),
                    i + 1,
                    children.len() as int,
                );
                lemma_failing_index(
                    children,
                    nothing_found(),
                    |found: AssemblyView, c: ElementView| space_step(found, c),
                    i as int,
                    children.len() as int,
                );
            }
        }
        if peripheral_sector(child) {
            found = match analyze_periph(child, found) {
                Ok(v) => v,
                Err(f) => {
                    return Err(
                        Failure {
                            error: f.error,
                            place: Some(Place { sector: i, child: f.child }),
                        },
                    );
                },
            };
        }
        i += 1;
    }
    Ok(
        Conversion {
            document: OutputDocument { name: name.clone(), peripherals: found.groups },
            warnings: found.warnings,
        },
    )
}

} // verus!
