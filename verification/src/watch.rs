use vstd::prelude::*;

verus! {

// ---------------------------------------------------------------------------
// The watch-loop decision
// ---------------------------------------------------------------------------
//
// The loop that waits for file events runs outside the library; it hands the
// decision — regenerate or not — to this function as plain values: the file
// names an event speaks of, the watched input file's name, and the event's
// kind.

/// The kinds of file event the decision distinguishes.
#[derive(Debug, Clone, Copy, PartialEq, Eq, Structural)]
pub enum WatchEventKind {
    Modified,
    Created,
    OtherEvent,
}

/// Whether an event kind calls for regeneration at all.
pub open spec fn triggers_regen(kind: WatchEventKind) -> bool {
    kind is Modified || kind is Created
}

/// Whether any of an event's file names is the watched input file's name.
pub open spec fn names_input(files: Seq<String>, input: Seq<char>) -> bool {
    exists|i: int| 0 <= i < files.len() && (#[trigger] files[i])@ == input
}

/// Decides whether one file event calls for a regeneration run: the event
/// must be a modification or creation, and one of its file names must be the
/// watched input file's name.
pub fn should_regenerate(event_files: &Vec<String>, input_file: &str, kind: WatchEventKind) -> (r:
    bool)
    ensures
        r == (triggers_regen(kind) && names_input(event_files@, input_file@)),
{
    match kind {
        WatchEventKind::OtherEvent => {
            return false;
        },
        _ => {},
    }
    let mut i: usize = 0;
    while i < event_files.len()
        invariant
            triggers_regen(kind),
            0 <= i <= event_files@.len(),
            forall|k: int| 0 <= k < i ==> (#[trigger] event_files@[k])@ != input_file@,
        decreases event_files@.len() - i,
    {
        if crate::text::str_eq(event_files[i].as_str(), input_file) {
            proof {
                assert(event_files@[i as int]@ == input_file@);
                assert(names_input(event_files@, input_file@));
                assert(triggers_regen(kind));
            }
            return true;
        }
        i = i + 1;
    }
    false
}

} // verus!
