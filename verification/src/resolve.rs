use vstd::prelude::*;

use crate::errors::TwigError;
use crate::id::{parse_id_spec, parse_task_id, valid_uuid_str, TaskId};
use crate::store::{has_short, is_first_short_match, Storage};
use crate::task::Task;

verus! {

/// Maps a user-supplied token to a task identifier against the current
/// store: a token of exactly 8 characters is looked up as a short
/// identifier (first match wins, `NotFound` when none matches); any other
/// token must parse as a full identifier (`InvalidFormat` when it does
/// not).
pub fn resolve_task_id(storage: &Storage, id_str: &str) -> (r: Result<TaskId, TwigError>)
    ensures
        id_str@.len() == 8 ==> match r {
            Ok(id) => exists|i: int|
                #[trigger] is_first_short_match(storage.tasks@, id_str@, i) && id
                    == storage.tasks@[i].id,
            Err(e) => e == TwigError::NotFound && !has_short(storage.tasks@, id_str@),
        },
        id_str@.len() == 8 ==> (r is Ok <==> has_short(storage.tasks@, id_str@)),
        id_str@.len() != 8 ==> (r is Ok <==> valid_uuid_str(id_str@)),
        id_str@.len() != 8 ==> (r is Ok ==> r->Ok_0 == parse_id_spec(id_str@)),
        id_str@.len() != 8 ==> (r is Err ==> r->Err_0 == TwigError::InvalidFormat),
{
    if id_str.unicode_len() == 8 {
        match storage.find_task_by_short_id(id_str) {
            Some(t) => Ok(t.id),
            None => Err(TwigError::NotFound),
        }
    } else {
        parse_task_id(id_str)
    }
}

/// Short-identifier resolution: the 8-character prefix of a stored
/// task's identifier always resolves to some task, and when no earlier
/// task shares that prefix it resolves to that very task.
pub proof fn lemma_short_id_resolution(s: Seq<Task>, i: int)
    requires
        0 <= i < s.len(),
    ensures
        has_short(s, s[i].id.short_spec()),
        (forall|j: int| 0 <= j < i ==> (#[trigger] s[j]).id.short_spec() != s[i].id.short_spec())
            ==> is_first_short_match(s, s[i].id.short_spec(), i),
{
    // the task itself witnesses the existence claim
    assert(0 <= i < s.len() && (#[trigger] s[i]).id.short_spec() == s[i].id.short_spec());
}

} // verus!
