//! Finding a part of a split module by its address, and taking it out as a
//! unit of its own.

use vstd::prelude::*;
use crate::error::{PartError, PartErrorView};
use crate::parse::{ParseResult, ParseResultView};
use crate::part::{Key, KeyView, ModulePart, ModulePartView};
use crate::split::{SplitResult, SplitResultView};

verus! {

/// The part of the first entry point with the given key.
pub open spec fn lookup(entrypoints: Seq<(KeyView, u32)>, key: KeyView) -> Option<u32>
    decreases entrypoints.len(),
{
    if entrypoints.len() == 0 {
        None
    } else if entrypoints[0].0 == key {
        Some(entrypoints[0].1)
    } else {
        lookup(entrypoints.drop_first(), key)
    }
}

/// The first entry point with a key is the one that a lookup finds.
pub proof fn lemma_lookup_first(entrypoints: Seq<(KeyView, u32)>, key: KeyView, i: int)
    requires
        0 <= i < entrypoints.len(),
        entrypoints[i].0 == key,
        forall|j: int| 0 <= j < i ==> (#[trigger] entrypoints[j]).0 != key,
    ensures
        lookup(entrypoints, key) == Some(entrypoints[i].1),
    decreases i,
{
    if i > 0 {
        let rest = entrypoints.drop_first();
        assert forall|j: int| 0 <= j < i - 1 implies (#[trigger] rest[j]).0 != key by {
            assert(rest[j] == entrypoints[j + 1]);
        }
        lemma_lookup_first(rest, key, i - 1);
    }
}

/// A key that no entry point has is not found.
pub proof fn lemma_lookup_none(entrypoints: Seq<(KeyView, u32)>, key: KeyView)
    requires
        forall|j: int| 0 <= j < entrypoints.len() ==> (#[trigger] entrypoints[j]).0 != key,
    ensures
        lookup(entrypoints, key) is None,
    decreases entrypoints.len(),
{
    if entrypoints.len() > 0 {
        let rest = entrypoints.drop_first();
        assert forall|j: int| 0 <= j < rest.len() implies (#[trigger] rest[j]).0 != key by {
            assert(rest[j] == entrypoints[j + 1]);
        }
        lemma_lookup_none(rest, key);
    }
}

/// The key under which the entry points list a part address, if they list
/// it.
pub open spec fn entry_key(part: ModulePartView) -> Option<KeyView> {
    match part {
        ModulePartView::Evaluation => Some(KeyView::ModuleEvaluation),
        ModulePartView::Exports => Some(KeyView::Exports),
        ModulePartView::Export(name) => Some(KeyView::Export(name)),
        _ => None,
    }
}

/// The number of the part that `part` names in `split`.
///
/// An internal part is found if the table of parts has its number. The facade
/// is the last part of the table. Every other address is found if the entry
/// points list it.
pub open spec fn resolve(split: SplitResultView, part: ModulePartView) -> Result<u32, PartErrorView> {
    match split {
        SplitResultView::Failed => Err(PartErrorView::Unsplit { part }),
        SplitResultView::Success { asset_ident, deps, entrypoints, parts } => {
            let missing = Err(PartErrorView::NotFound { module: asset_ident, part });
            match part {
                ModulePartView::Internal(id) => if id < parts.len() {
                    Ok(id)
                } else {
                    missing
                },
                ModulePartView::Facade => if 0 < parts.len() <= u32::MAX {
                    Ok((parts.len() - 1) as u32)
                } else {
                    missing
                },
                _ => match lookup(entrypoints, entry_key(part).unwrap()) {
                    Some(id) => Ok(id),
                    None => missing,
                },
            }
        },
    }
}

/// What `part` holds: the whole module where it was not split, the part of
/// the table that `part` names where it was.
pub open spec fn project(module: ParseResultView, split: SplitResultView, part: ModulePartView) -> Result<
    ParseResultView,
    PartErrorView,
> {
    match split {
        SplitResultView::Failed => Ok(module),
        SplitResultView::Success { asset_ident, deps, entrypoints, parts } => match resolve(split, part) {
            Ok(id) => if id < parts.len() {
                Ok(parts[id as int])
            } else {
                Err(PartErrorView::NotFound { module: asset_ident, part })
            },
            Err(error) => Err(error),
        },
    }
}

/// The value of a part number or of the error in its place.
pub open spec fn id_view(r: Result<u32, PartError>) -> Result<u32, PartErrorView> {
    match r {
        Ok(id) => Ok(id),
        Err(error) => Err(error@),
    }
}

/// The value of a unit or of the error in its place.
pub open spec fn unit_view(r: Result<ParseResult, PartError>) -> Result<ParseResultView, PartErrorView> {
    match r {
        Ok(unit) => Ok(unit@),
        Err(error) => Err(error@),
    }
}

/// The part of the first entry point with the given key.
fn find_entry(entrypoints: &Vec<(Key, u32)>, key: &Key) -> (r: Option<u32>)
    ensures
        r == lookup(crate::split::entrypoints_view(entrypoints@), key@),
{
    let ghost all = crate::split::entrypoints_view(entrypoints@);
    let mut i: usize = 0;
    while i < entrypoints.len()
        invariant
            all == crate::split::entrypoints_view(entrypoints@),
            i <= entrypoints@.len(),
            forall|j: int| 0 <= j < i ==> (#[trigger] all[j]).0 != key@,
        decreases entrypoints@.len() - i,
    {
        proof {
            assert(all[i as int] == (entrypoints@[i as int].0@, entrypoints@[i as int].1));
        }
        if entrypoints[i].0.same(key) {
            proof {
                lemma_lookup_first(all, key@, i as int);
            }
            return Some(entrypoints[i].1);
        }
        i += 1;
    }
    proof {
        lemma_lookup_none(all, key@);
    }
    None
}

/// Finds the number of the part that `part` names.
pub fn get_part_id(result: &SplitResult, part: &ModulePart) -> (r: Result<u32, PartError>)
    ensures
        id_view(r) == resolve(result@, part@),
{
    match result {
        SplitResult::Failed => Err(PartError::Unsplit { part: part.clone() }),
        SplitResult::Success { asset_ident, deps, entrypoints, parts } => {
            let found = match part {
                ModulePart::Internal(id) => if (*id as usize) < parts.len() {
                    Some(*id)
                } else {
                    None
                },
                ModulePart::Facade => if 0 < parts.len() && parts.len() <= u32::MAX as usize {
                    Some((parts.len() - 1) as u32)
                } else {
                    None
                },
                ModulePart::Evaluation => find_entry(entrypoints, &Key::ModuleEvaluation),
                ModulePart::Exports => find_entry(entrypoints, &Key::Exports),
                ModulePart::Export(name) => find_entry(entrypoints, &Key::Export(name.clone())),
            };
            match found {
                Some(id) => Ok(id),
                None => Err(PartError::NotFound { module: asset_ident.clone(), part: part.clone() }),
            }
        },
    }
}

/// Takes the part that `part` names out of a module as a unit of its own.
/// Where the module was not split, the unit is the whole module, whatever
/// `part` names.
pub fn part_of_module(module: &ParseResult, result: &SplitResult, part: &ModulePart) -> (r: Result<
    ParseResult,
    PartError,
>)
    ensures
        unit_view(r) == project(module@, result@, part@),
{
    match result {
        SplitResult::Failed => Ok(module.clone()),
        SplitResult::Success { asset_ident, deps, entrypoints, parts } => {
            match get_part_id(result, part) {
                Ok(id) => if (id as usize) < parts.len() {
                    proof {
                        assert(crate::split::parts_view(parts@)[id as int] == parts@[id as int]@);
                    }
                    Ok(parts[id as usize].clone())
                } else {
                    Err(PartError::NotFound { module: asset_ident.clone(), part: part.clone() })
                },
                Err(error) => Err(error),
            }
        },
    }
}

} // verus!
