//! The task store: turning a task list into its persisted text and back.
//!
//! `save_tasks` follows the eager reconciliation policy: it first removes
//! every completed task from the list, then produces the text of what
//! remains, so the persisted store never holds a completed task. The caller
//! is expected to invoke it once per interaction cycle and write the text
//! out; a failing write is the caller's to report. `load_tasks` never fails:
//! absent or malformed content yields an empty list.

use crate::codec::decode_tasks;
use crate::codec::encode_list;
use crate::codec::encode_tasks;
use crate::codec::lemma_parse_encode;
use crate::codec::parse_list;
use crate::task::SpecTask;
use crate::task::TaskList;
use crate::task::incomplete_of;
use crate::task::lemma_incomplete_of_idempotent;
use crate::task::lemma_incomplete_of_identity;
use vstd::prelude::*;

verus! {

/// Builds the task list from the stored text: `None` (no store) and
/// malformed text both yield the empty list, silently.
pub fn load_tasks(content: Option<&str>) -> (r: TaskList)
    ensures
        match content {
            Some(s) => match parse_list(s@) {
                Some(ts) => r@ == ts,
                None => r@ == Seq::<SpecTask>::empty(),
            },
            None => r@ == Seq::<SpecTask>::empty(),
        },
{
    match content {
        Some(s) => match decode_tasks(s) {
            Some(v) => TaskList { tasks: v },
            None => TaskList::new(),
        },
        None => TaskList::new(),
    }
}

/// Removes every completed task from the list, then returns the persisted
/// text of what remains, the whole new store content.
pub fn save_tasks(tasks: &mut TaskList) -> (r: String)
    ensures
        final(tasks)@ == incomplete_of(old(tasks)@),
        r@ == encode_list(final(tasks)@),
{
    tasks.remove_completed();
    encode_tasks(&tasks.tasks)
}

/// Round trip: saving a list without completed tasks keeps it unchanged, and
/// parsing the text it persisted gives back exactly that list, names, flags
/// and order preserved.
pub proof fn lemma_save_load_round_trip(ts: Seq<SpecTask>)
    requires
        forall|i: int| 0 <= i < ts.len() ==> !(#[trigger] ts[i]).completed,
    ensures
        incomplete_of(ts) == ts,
        parse_list(encode_list(ts)) == Some(ts),
{
    lemma_incomplete_of_identity(ts);
    lemma_parse_encode(ts);
}

/// Saving twice in a row persists the same content as saving once: the first
/// save already removed every completed task, so the second removes nothing
/// and writes the same text.
pub proof fn lemma_save_idempotent(ts: Seq<SpecTask>)
    ensures
        incomplete_of(incomplete_of(ts)) == incomplete_of(ts),
        encode_list(incomplete_of(incomplete_of(ts))) == encode_list(incomplete_of(ts)),
{
    lemma_incomplete_of_idempotent(ts);
}

} // verus!
