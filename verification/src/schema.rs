//! The stored form of the queue: names of kinds and states, and how older tables are brought up
//! to date.

use vstd::prelude::*;

use crate::model::kind_label;
use crate::records::{EventKind, EventState};
use crate::text::{has_part, same_text, text_has_part};
use crate::text_laws::law_parts_stand_between;

verus! {

broadcast use vstd::string::group_string_axioms;

/// The kind that a name stands for.
pub open spec fn labelled_kind(label: Seq<char>) -> Option<EventKind> {
    if label == "text"@ {
        Some(EventKind::Text)
    } else if label == "voice"@ {
        Some(EventKind::Voice)
    } else if label == "image"@ {
        Some(EventKind::Image)
    } else {
        None
    }
}

/// The name of a state.
pub open spec fn state_label(state: EventState) -> Seq<char> {
    match state {
        EventState::Queued => "queued"@,
        EventState::Claimed => "claimed"@,
        EventState::Completed => "completed"@,
    }
}

/// The state that a name stands for.
pub open spec fn labelled_state(label: Seq<char>) -> Option<EventState> {
    if label == "queued"@ {
        Some(EventState::Queued)
    } else if label == "claimed"@ {
        Some(EventState::Claimed)
    } else if label == "completed"@ {
        Some(EventState::Completed)
    } else {
        None
    }
}

/// The kind that a name stands for.
pub fn parse_kind(label: &str) -> (r: Option<EventKind>)
    ensures
        r == labelled_kind(label@),
{
    if same_text(label, "text") {
        Some(EventKind::Text)
    } else if same_text(label, "voice") {
        Some(EventKind::Voice)
    } else if same_text(label, "image") {
        Some(EventKind::Image)
    } else {
        None
    }
}

/// The name of a state.
pub fn state_name(state: EventState) -> (r: &'static str)
    ensures
        r@ == state_label(state),
{
    match state {
        EventState::Queued => "queued",
        EventState::Claimed => "claimed",
        EventState::Completed => "completed",
    }
}

/// The state that a name stands for.
pub fn parse_state(label: &str) -> (r: Option<EventState>)
    ensures
        r == labelled_state(label@),
{
    if same_text(label, "queued") {
        Some(EventState::Queued)
    } else if same_text(label, "claimed") {
        Some(EventState::Claimed)
    } else if same_text(label, "completed") {
        Some(EventState::Completed)
    } else {
        None
    }
}

/// A kind is read back from its name.
pub proof fn law_kind_reads_back(kind: EventKind)
    ensures
        labelled_kind(kind_label(kind)) == Some(kind),
{
    reveal_strlit("text");
    reveal_strlit("voice");
    reveal_strlit("image");
    assert("text"@[0] == 't' && "voice"@[0] == 'v' && "image"@[0] == 'i');
}

/// A state is read back from its name.
pub proof fn law_state_reads_back(state: EventState)
    ensures
        labelled_state(state_label(state)) == Some(state),
{
    reveal_strlit("queued");
    reveal_strlit("claimed");
    reveal_strlit("completed");
    assert("queued"@[0] == 'q' && "claimed"@[1] == 'l' && "completed"@[1] == 'o' && "completed"@[0]
        == 'c' && "claimed"@[0] == 'c');
}

/// What an older inbound table lacks.
#[derive(Clone, Copy, Debug, PartialEq, Eq, Structural)]
pub struct Migration {
    /// The column for the kind of an event is added.
    pub add_kind: bool,
    /// The column for the room of an event is added.
    pub add_room_id: bool,
    /// The table is rebuilt with columns for images.
    pub rebuild: bool,
}

/// True when a column of the given name is among the first `n`.
pub open spec fn has_column(columns: Seq<String>, name: Seq<char>, n: int) -> bool {
    exists|i: int| 0 <= i < n && (#[trigger] columns[i])@ == name
}

/// What an inbound table with these columns, made by this statement, lacks.
pub open spec fn lacking(columns: Seq<String>, statement: Seq<char>) -> Migration {
    Migration {
        add_kind: !has_column(columns, "kind"@, columns.len() as int),
        add_room_id: !has_column(columns, "room_id"@, columns.len() as int),
        rebuild: !has_part(statement, "'image'"@),
    }
}

fn contains_column(columns: &Vec<String>, name: &str) -> (r: bool)
    ensures
        r == has_column(columns@, name@, columns@.len() as int),
{
    let mut i: usize = 0;
    while i < columns.len()
        invariant
            i <= columns@.len(),
            !has_column(columns@, name@, i as int),
        decreases columns@.len() - i,
    {
        if same_text(columns[i].as_str(), name) {
            return true;
        }
        i = i + 1;
    }
    false
}

/// What an inbound table with these columns, made by this statement, lacks.
pub fn plan_migration(columns: &Vec<String>, statement: &str) -> (r: Migration)
    ensures
        r == lacking(columns@, statement@),
{
    Migration {
        add_kind: !contains_column(columns, "kind"),
        add_room_id: !contains_column(columns, "room_id"),
        rebuild: !text_has_part(statement, "'image'"),
    }
}

/// Kinds and states have fixed names, and no other name stands for one.
pub proof fn law_labels_are_fixed(label: Seq<char>)
    ensures
        labelled_kind(label) == Some(EventKind::Text) <==> label == "text"@,
        labelled_kind(label) == Some(EventKind::Voice) <==> label == "voice"@,
        labelled_kind(label) == Some(EventKind::Image) <==> label == "image"@,
        labelled_state(label) == Some(EventState::Queued) <==> label == "queued"@,
        labelled_state(label) == Some(EventState::Claimed) <==> label == "claimed"@,
        labelled_state(label) == Some(EventState::Completed) <==> label == "completed"@,
{
    law_kind_reads_back(EventKind::Text);
    law_kind_reads_back(EventKind::Voice);
    law_kind_reads_back(EventKind::Image);
    law_state_reads_back(EventState::Queued);
    law_state_reads_back(EventState::Claimed);
    law_state_reads_back(EventState::Completed);
}

/// A column is added when no column has its name. The table is rebuilt when the statement that made
/// it does not speak of images.
pub proof fn law_missing_columns_are_added(columns: Seq<String>, statement: Seq<char>)
    ensures
        lacking(columns, statement).add_kind <==> forall|i: int|
            0 <= i < columns.len() ==> (#[trigger] columns[i])@ != "kind"@,
        lacking(columns, statement).add_room_id <==> forall|i: int|
            0 <= i < columns.len() ==> (#[trigger] columns[i])@ != "room_id"@,
        lacking(columns, statement).rebuild <==> forall|a: Seq<char>, b: Seq<char>|
            statement != #[trigger] (a + "'image'"@ + b),
{
    law_parts_stand_between(statement, "'image'"@);
}

} // verus!
