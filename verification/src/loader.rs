//! Loading a whole collection: every file's text parsed as one list, in
//! directory order, the whole load failing on the first bad file.

use crate::json::{parse_todos, ser_todos, sp_doc};
use crate::todo::{Todos, TodosView};
use vstd::prelude::*;

verus! {

/// Whether a text is a well-formed list document: in the accepted
/// language [`sp_doc`] of the format.
pub open spec fn is_doc(s: Seq<char>) -> bool {
    sp_doc(s) is Some
}

/// Why a load aborted: the position of the first file that is not a
/// well-formed list document.
pub struct LoadError {
    pub index: usize,
}

/// Turns the files' texts, in directory order, into the collection.
///
/// Succeeds exactly when every text is a well-formed document, and then
/// keeps each file's declared name and item order; otherwise reports the
/// first bad file and no collection at all.
pub fn load_collection(files: &Vec<String>) -> (r: Result<Vec<Todos>, LoadError>)
    ensures
        match r {
            Ok(c) => {
                &&& c@.len() == files@.len()
                &&& forall|i: int| 0 <= i < files@.len() ==> sp_doc(files@[i]@) == Some(c@[i]@)
                &&& forall|i: int, v: TodosView|
                    0 <= i < files@.len() && files@[i]@ == ser_todos(v) ==> c@[i]@ == v
            },
            Err(e) => {
                &&& e.index < files@.len()
                &&& !is_doc(files@[e.index as int]@)
                &&& forall|i: int| 0 <= i < e.index ==> is_doc(files@[i]@)
            },
        },
{
    let mut out: Vec<Todos> = Vec::new();
    let mut k: usize = 0;
    while k < files.len()
        invariant
            k <= files@.len(),
            out@.len() == k,
            forall|i: int| 0 <= i < k ==> sp_doc(files@[i]@) == Some(out@[i]@),
        decreases files@.len() - k,
    {
        match parse_todos(files[k].as_str()) {
            Some(t) => {
                out.push(t);
            },
            None => {
                return Err(LoadError { index: k });
            },
        }
        k = k + 1;
    }
    proof {
        assert forall|i: int, v: TodosView|
            0 <= i < files@.len() && files@[i]@ == ser_todos(v) implies out@[i]@ == v by {
            crate::json::lemma_round_trip(v);
        }
    }
    Ok(out)
}

} // verus!
