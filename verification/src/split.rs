use vstd::prelude::*;

use crate::error::SplitError;
use crate::name::filename;
use crate::name::filename_spec;
use crate::path::Resolved;
use crate::path::descend;
use crate::path::resolve_path;
use crate::render::json;
use crate::render::render;
use crate::value::JsonValue;

verus! {

/// The IDs already written during this run.  The set lives for the whole
/// run and is never reset between input files, so a duplicate is caught
/// across files as well as inside one.
pub struct SeenIds {
    ids: Vec<String>,
}

impl View for SeenIds {
    type V = Set<Seq<char>>;

    closed spec fn view(&self) -> Set<Seq<char>> {
        self.ids@.map_values(|s: String| s@).to_set()
    }
}

impl SeenIds {
    /// Starts a run with no ID seen yet.
    pub fn new() -> (r: SeenIds)
        ensures
            r@ == Set::<Seq<char>>::empty(),
    {
        let r = SeenIds { ids: Vec::new() };
        proof {
            assert(r@ =~= Set::<Seq<char>>::empty());
        }
        r
    }

    /// Whether `id` has been seen during this run.
    pub fn contains(&self, id: &String) -> (r: bool)
        ensures
            r == self@.contains(id@),
    {
        let ghost views = self.ids@.map_values(|s: String| s@);
        let mut i: usize = 0;
        while i < self.ids.len()
            invariant
                0 <= i <= self.ids.len(),
                views == self.ids@.map_values(|s: String| s@),
                forall|j: int| 0 <= j < i ==> views[j] != id@,
            decreases self.ids.len() - i,
        {
            if self.ids[i] == *id {
                proof {
                    assert(views[i as int] == id@);
                    assert(views.contains(id@));
                }
                return true;
            }
            i += 1;
        }
        proof {
            assert(forall|j: int| 0 <= j < views.len() ==> views[j] != id@);
            assert(!views.contains(id@));
        }
        false
    }

    /// Records `id` as seen.
    pub fn insert(&mut self, id: &String)
        ensures
            final(self)@ == old(self)@.insert(id@),
    {
        self.ids.push(id.clone());
        proof {
            let old_views = old(self).ids@.map_values(|s: String| s@);
            let new_views = self.ids@.map_values(|s: String| s@);
            assert(new_views =~= old_views.push(id@));
            assert forall|x: Seq<char>| new_views.to_set().contains(x) implies old_views.to_set().insert(
                id@,
            ).contains(x) by {
                let j = choose|j: int| 0 <= j < new_views.len() && new_views[j] == x;
                if j < old_views.len() {
                    assert(old_views[j] == x);
                    assert(old_views.contains(x));
                }
            }
            assert forall|x: Seq<char>| old_views.to_set().insert(id@).contains(x) implies new_views.to_set().contains(
                x,
            ) by {
                if old_views.contains(x) {
                    let j = choose|j: int| 0 <= j < old_views.len() && old_views[j] == x;
                    assert(new_views[j] == x);
                } else {
                    assert(new_views[old_views.len() as int] == id@);
                }
            }
            assert(self@ =~= old(self)@.insert(id@));
        }
    }
}

/// What one processed element yields: the element's ID, the name of the
/// file to write, the serialized element to put in it, and whether the ID
/// duplicates one already seen (a tolerated collision, to be warned
/// about).
#[derive(Debug)]
pub struct FileOut {
    pub id: String,
    pub name: String,
    pub content: String,
    pub dupe: bool,
}

/// The extension of every output file.
pub open spec fn json_ext() -> Seq<char> {
    seq!['.', 'j', 's', 'o', 'n']
}

/// Resolves the array path inside a parsed document and checks that it
/// reaches an array: returns its elements, or the resolution error, or
/// `NotAnArray` when the path reaches a value of any other kind.
pub fn get_array<'a>(d: &'a JsonValue, array_path: &str) -> (r: Result<
    &'a Vec<JsonValue>,
    SplitError,
>)
    ensures
        match r {
            Ok(items) => resolve_path(array_path@, *d) == Resolved::Found(JsonValue::Arr(*items)),
            Err(e) => match e {
                SplitError::InvalidKey(k) => resolve_path(array_path@, *d)
                    == Resolved::MissingKey(k@),
                SplitError::NotAnObject => resolve_path(array_path@, *d) == Resolved::NonObject,
                SplitError::NotAnArray => resolve_path(array_path@, *d) matches Resolved::Found(v)
                    && !(v is Arr),
                _ => false,
            },
        },
{
    match descend(array_path, d) {
        Ok(u) => match u {
            JsonValue::Arr(items) => Ok(items),
            _ => Err(SplitError::NotAnArray),
        },
        Err(e) => Err(e),
    }
}

/// Processes one element of the array: resolves the ID path inside it,
/// requires a string there, applies the collision policy against the IDs
/// seen so far, and yields the file name and serialized content to write.
///
/// A duplicate ID fails with `IdCollision` and leaves the seen set
/// unchanged when collisions are not tolerated; with tolerance it yields
/// the output again, marked as a duplicate, so that the caller overwrites
/// the earlier file of the same name.  On success the ID is recorded as
/// seen.
pub fn element_output(
    elem: &JsonValue,
    array_path: &str,
    id_path: &str,
    pretty: bool,
    tolerate: bool,
    seen: &mut SeenIds,
) -> (r: Result<FileOut, SplitError>)
    ensures
        match resolve_path(id_path@, *elem) {
            Resolved::Found(idv) => match idv {
                JsonValue::Str(id) => if old(seen)@.contains(id@) && !tolerate {
                    &&& r matches Err(SplitError::IdCollision(c)) && c@ == id@
                    &&& final(seen)@ == old(seen)@
                } else {
                    &&& r matches Ok(out) && out.id@ == id@ && out.name@ == filename_spec(
                        array_path@,
                        id_path@,
                        id@,
                        json_ext(),
                    ) && out.content@ == render(*elem, pretty) && out.dupe == old(
                        seen,
                    )@.contains(id@)
                    &&& final(seen)@ == old(seen)@.insert(id@)
                },
                _ => r == Err::<FileOut, SplitError>(SplitError::IdNotString) && final(seen)@
                    == old(seen)@,
            },
            Resolved::MissingKey(k) => (r matches Err(SplitError::InvalidKey(s)) && s@ == k)
                && final(seen)@ == old(seen)@,
            Resolved::NonObject => r == Err::<FileOut, SplitError>(SplitError::NotAnObject)
                && final(seen)@ == old(seen)@,
        },
{
    let idval = match descend(id_path, elem) {
        Ok(u) => u,
        Err(e) => {
            return Err(e);
        },
    };
    match idval {
        JsonValue::Str(id) => {
            let dupe = seen.contains(id);
            if dupe && !tolerate {
                return Err(SplitError::IdCollision(id.clone()));
            }
            let name = filename(array_path, id_path, id.as_str(), ".json");
            let content = json(elem, pretty);
            let id_out = id.clone();
            seen.insert(id);
            proof {
                reveal_strlit(".json");
                assert(".json"@ =~= json_ext());
            }
            Ok(FileOut { id: id_out, name, content, dupe })
        },
        _ => Err(SplitError::IdNotString),
    }
}

} // verus!
