//! Decisions of the playlist page and the track tables: reordering by drag
//! and drop, row styles and labels, the running time label, the rename form
//! and the add-to-playlist messages.

use vstd::prelude::*;
use crate::mail_model::opt_view;
use crate::text::{concat2, concat3, decimal, owned, trim, trim_str, u64_to_decimal};

verus! {

broadcast use vstd::string::group_string_axioms;

/// The list after dragging the item at `from` onto position `to`: the item is
/// taken out and put back at `to`, or at the end when `to` is past it.
pub open spec fn moved<T>(list: Seq<T>, from: int, to: int) -> Seq<T> {
    let rest = list.remove(from);
    let at = if to < rest.len() { to } else { rest.len() as int };
    rest.insert(at, list[from])
}

/// Commits a drag: moves the item at `from` to `to` when they differ and
/// `from` is in the list. Returns whether the list changed order, in which
/// case the new order is sent to the server.
pub fn move_item<T>(list: &mut Vec<T>, from: usize, to: usize) -> (r: bool)
    ensures
        r == (from != to && from < old(list).len()),
        r ==> final(list)@ == moved(old(list)@, from as int, to as int),
        !r ==> final(list)@ == old(list)@,
{
    if from != to && from < list.len() {
        let item = list.remove(from);
        let at = if to < list.len() { to } else { list.len() };
        list.insert(at, item);
        true
    } else {
        false
    }
}

/// A drag moves items and loses none: the list after it holds the same items
/// as often as before, and the dragged item sits where it was dropped, or
/// last when dropped past the end.
pub proof fn lemma_move_is_permutation<T>(list: Seq<T>, from: int, to: int)
    requires
        0 <= from < list.len(),
        0 <= to,
    ensures
        moved(list, from, to).to_multiset() == list.to_multiset(),
        moved(list, from, to).len() == list.len(),
        moved(list, from, to)[if to < list.len() - 1 { to } else { list.len() - 1 }] == list[from],
{
    broadcast use vstd::seq_lib::group_to_multiset_ensures, vstd::multiset::group_multiset_axioms;

    let rest = list.remove(from);
    let at = if to < rest.len() { to } else { rest.len() as int };
    assert(rest.insert(at, list[from])[at] == list[from]);
    assert(rest.to_multiset().insert(list[from]) =~= list.to_multiset());
}

/// The style of a track row while a drag may be under way: the dragged row
/// fades, the row under the pointer shows where the item lands (a line above
/// when moving up, below when moving down), the playing row is tinted.
pub open spec fn row_class_text(
    drag_from: Option<usize>,
    drop_at: Option<usize>,
    dragging: bool,
    idx: usize,
    playing_here: bool,
) -> Seq<char> {
    let source = drag_from == Some(idx);
    let target = dragging && drop_at == Some(idx) && !source;
    if source {
        "opacity-30"@
    } else if target {
        if (match drag_from {
            Some(f) => f,
            None => 0usize,
        }) > idx {
            "border-t-2 border-t-primary bg-primary/5"@
        } else {
            "border-b-2 border-b-primary bg-primary/5"@
        }
    } else if playing_here {
        "hover:bg-base-200 bg-primary/10"@
    } else {
        "hover:bg-base-200"@
    }
}

/// The style of the track row at `idx`.
pub fn playlist_row_class(
    drag_from: Option<usize>,
    drop_at: Option<usize>,
    dragging: bool,
    idx: usize,
    playing_here: bool,
) -> (r: &'static str)
    ensures
        r@ == row_class_text(drag_from, drop_at, dragging, idx, playing_here),
{
    let source = drag_from == Some(idx);
    let target = dragging && drop_at == Some(idx) && !source;
    if source {
        "opacity-30"
    } else if target {
        let f = match drag_from {
            Some(f) => f,
            None => 0,
        };
        if f > idx {
            "border-t-2 border-t-primary bg-primary/5"
        } else {
            "border-b-2 border-b-primary bg-primary/5"
        }
    } else if playing_here {
        "hover:bg-base-200 bg-primary/10"
    } else {
        "hover:bg-base-200"
    }
}

/// The running time of a playlist from its length in whole minutes:
/// `h hr m min` from an hour on, else `m min`.
pub open spec fn duration_text(minutes: u64) -> Seq<char> {
    if minutes >= 60 {
        decimal((minutes / 60) as nat) + " hr "@ + decimal((minutes % 60) as nat) + " min"@
    } else {
        decimal(minutes as nat) + " min"@
    }
}

/// The running time label of a playlist, from its length in whole minutes.
pub fn total_duration_label(minutes: u64) -> (r: String)
    ensures
        r@ == duration_text(minutes),
{
    if minutes >= 60 {
        let h = u64_to_decimal(minutes / 60);
        let m = u64_to_decimal(minutes % 60);
        let head = concat3(h.as_str(), " hr ", m.as_str());
        concat2(head.as_str(), " min")
    } else {
        concat2(u64_to_decimal(minutes).as_str(), " min")
    }
}

/// What submitting the rename form does.
pub enum RenamePlan {
    /// Show this error and keep the form open.
    Invalid(String),
    /// Nothing changed: close the form.
    Unchanged,
    /// Send the update: the new name if it changed, the description to send
    /// (empty to clear it), and the name and description the page keeps.
    Update { name: Option<String>, description: Option<String>, new_name: String, new_description: Option<String> },
}

/// The plan as plain values: kind, error, name to send, description to send,
/// kept name, kept description.
pub open spec fn rename_view(p: RenamePlan) -> (int, Seq<char>, Option<Seq<char>>, Option<Seq<char>>, Seq<char>, Option<Seq<char>>) {
    match p {
        RenamePlan::Invalid(e) => (0, e@, None, None, Seq::empty(), None),
        RenamePlan::Unchanged => (1, Seq::empty(), None, None, Seq::empty(), None),
        RenamePlan::Update { name, description, new_name, new_description } => (
            2,
            Seq::empty(),
            opt_view(name),
            opt_view(description),
            new_name@,
            opt_view(new_description),
        ),
    }
}

/// The rename decision: both fields are trimmed and a blank description is
/// none. A blank name is refused; an unchanged form just closes; otherwise the
/// name is sent if it changed, and the description if it changed, an empty one
/// standing for "clear it" when the form has none.
pub open spec fn rename_decision(
    name: Seq<char>,
    desc: Seq<char>,
    current_name: Seq<char>,
    current_desc: Option<Seq<char>>,
) -> (int, Seq<char>, Option<Seq<char>>, Option<Seq<char>>, Seq<char>, Option<Seq<char>>) {
    let new_name = trim(name);
    let new_desc = if trim(desc).len() == 0 {
        None
    } else {
        Some(trim(desc))
    };
    if new_name.len() == 0 {
        (0, "Name cannot be empty"@, None, None, Seq::empty(), None)
    } else if new_name == current_name && new_desc == current_desc {
        (1, Seq::empty(), None, None, Seq::empty(), None)
    } else {
        let send_name = if new_name == current_name {
            None
        } else {
            Some(new_name)
        };
        let send_desc = if new_desc == current_desc {
            None
        } else {
            new_desc
        };
        let desc_param = if send_desc.is_none() && new_desc.is_none() {
            Some(Seq::<char>::empty())
        } else {
            send_desc
        };
        (2, Seq::empty(), send_name, desc_param, new_name, new_desc)
    }
}

fn opt_eq(a: &Option<String>, b: &Option<String>) -> (r: bool)
    ensures
        r == (opt_view(*a) == opt_view(*b)),
{
    match (a, b) {
        (Some(x), Some(y)) => x.eq(y),
        (None, None) => true,
        _ => false,
    }
}

/// Decides what submitting the rename form does.
pub fn rename_plan(name: &str, description: &str, current_name: &str, current_description: &Option<String>) -> (r: RenamePlan)
    ensures
        rename_view(r) == rename_decision(name@, description@, current_name@, opt_view(*current_description)),
{
    let new_name = trim_str(name);
    let raw = trim_str(description);
    let new_desc: Option<String> = if raw.as_str().is_empty() {
        None
    } else {
        Some(raw)
    };
    if new_name.as_str().is_empty() {
        return RenamePlan::Invalid(owned("Name cannot be empty"));
    }
    let same_name = crate::text::str_eq(new_name.as_str(), current_name);
    let same_desc = opt_eq(&new_desc, current_description);
    if same_name && same_desc {
        return RenamePlan::Unchanged;
    }
    let send_name = if same_name {
        None
    } else {
        Some(new_name.clone())
    };
    let send_desc: Option<String> = if same_desc {
        None
    } else {
        crate::mail_model::clone_opt(&new_desc)
    };
    let desc_param = if send_desc.is_none() && new_desc.is_none() {
        Some(String::new())
    } else {
        send_desc
    };
    RenamePlan::Update { name: send_name, description: desc_param, new_name, new_description: new_desc }
}

/// The error shown when renaming fails: a name clash gets its own words,
/// other errors are shown as the server gave them.
pub fn rename_error_message(error: &str) -> (r: String)
    ensures
        r@ == if error@ == "CONFLICT"@ {
            "A playlist with this name already exists"@
        } else {
            error@
        },
{
    if crate::text::str_eq(error, "CONFLICT") {
        owned("A playlist with this name already exists")
    } else {
        owned(error)
    }
}

/// The error shown when creating playlist `name` fails: a name clash says
/// that the name exists, other errors are shown as the server gave them.
pub fn create_error_message(name: &str, error: &str) -> (r: String)
    ensures
        r@ == if error@ == "CONFLICT"@ {
            "\""@ + name@ + "\" already exists"@
        } else {
            error@
        },
{
    if crate::text::str_eq(error, "CONFLICT") {
        concat3("\"", name, "\" already exists")
    } else {
        owned(error)
    }
}

/// The style of a row of a track table: tinted while its track is playing.
pub fn track_row_class(is_current: bool, is_playing: bool) -> (r: &'static str)
    ensures
        r@ == if is_current && is_playing {
            "hover:bg-base-200 transition-colors bg-primary/10 group"@
        } else {
            "hover:bg-base-200 transition-colors group"@
        },
{
    if is_current && is_playing {
        "hover:bg-base-200 transition-colors bg-primary/10 group"
    } else {
        "hover:bg-base-200 transition-colors group"
    }
}

/// What the play button of a track row does.
#[derive(PartialEq, Eq, Structural, Debug)]
pub enum TrackClick {
    /// The row's track is the current one: set whether the player plays.
    SetPlaying(bool),
    /// Play the track at this index of the table.
    Play(usize),
}

/// The play button of row `idx`: on the current track it pauses or resumes,
/// on another track it starts that one.
pub fn track_click(idx: usize, is_current: bool, is_playing: bool) -> (r: TrackClick)
    ensures
        is_current ==> r == TrackClick::SetPlaying(!is_playing),
        !is_current ==> r == TrackClick::Play(idx),
{
    if is_current {
        TrackClick::SetPlaying(!is_playing)
    } else {
        TrackClick::Play(idx)
    }
}

/// The title shown for a track: its tag, else its file name.
pub fn track_title(title: &Option<String>, file_name: &str) -> (r: String)
    ensures
        r@ == match title {
            Some(t) => t@,
            None => file_name@,
        },
{
    match title {
        Some(t) => t.clone(),
        None => owned(file_name),
    }
}

/// An artist or album shown for a track: its tag, else `Unknown`.
pub fn tag_or_unknown(tag: &Option<String>) -> (r: String)
    ensures
        r@ == match tag {
            Some(t) => t@,
            None => "Unknown"@,
        },
{
    match tag {
        Some(t) => t.clone(),
        None => owned("Unknown"),
    }
}

/// The track number column: the number, or nothing.
pub fn track_number_label(number: Option<u32>) -> (r: String)
    ensures
        r@ == match number {
            Some(n) => decimal(n as nat),
            None => Seq::empty(),
        },
{
    match number {
        Some(n) => u64_to_decimal(n as u64),
        None => String::new(),
    }
}

/// The message after adding a track to playlist `name`: the playlist's name
/// on success, the server's error otherwise.
pub fn add_to_playlist_message(name: &str, result: &Result<(), String>) -> (r: String)
    ensures
        r@ == match result {
            Ok(_) => "Added to \""@ + name@ + "\""@,
            Err(e) => "Error: "@ + e@,
        },
{
    match result {
        Ok(_) => concat3("Added to \"", name, "\""),
        Err(e) => concat2("Error: ", e.as_str()),
    }
}

/// The message after creating playlist `name` for a track.
pub fn created_and_added_message(name: &str) -> (r: String)
    ensures
        r@ == "Created \""@ + name@ + "\" and added track"@,
{
    concat3("Created \"", name, "\" and added track")
}

/// The tracks of a playlist after the one with file id `file_id` is removed
/// from it: every track of that file leaves, the others keep their order.
pub fn without_file(tracks: Vec<crate::player::PlayerTrack>, file_id: &str) -> (r: Vec<crate::player::PlayerTrack>)
    ensures
        r@ == tracks@.filter(|t: crate::player::PlayerTrack| t.file_id@ != file_id@),
{
    let ghost all = tracks@;
    let mut rest = tracks;
    let n = rest.len();
    let mut out: Vec<crate::player::PlayerTrack> = Vec::new();
    let mut i: usize = 0;
    assert(rest@ =~= all.skip(0));
    assert(all.take(0).filter(|t: crate::player::PlayerTrack| t.file_id@ != file_id@) =~= Seq::<
        crate::player::PlayerTrack,
    >::empty());
    while i < n
        invariant
            i <= n,
            n == all.len(),
            rest@ == all.skip(i as int),
            out@ == all.take(i as int).filter(|t: crate::player::PlayerTrack| t.file_id@ != file_id@),
        decreases n - i,
    {
        let t = rest.remove(0);
        assert(t == all[i as int]);
        assert(rest@ =~= all.skip(i + 1));
        proof {
            assert(all.take(i + 1).drop_last() =~= all.take(i as int));
            reveal_with_fuel(Seq::filter, 1);
        }
        if !crate::text::str_eq(t.file_id.as_str(), file_id) {
            out.push(t);
        }
        i = i + 1;
    }
    assert(all.take(n as int) =~= all);
    out
}

/// The long-press that starts a drag on a touch screen: the number of the
/// latest press, and whether a finger is still down near where it pressed.
pub struct LongPress {
    pub seq: u32,
    pub pressed: bool,
}

/// A pointer pressed on a row: a touch or pen press starts a new press
/// number, returned to wait on; a mouse press starts nothing (the grip
/// handle drags at once).
pub fn press_started(lp: &mut LongPress, pointer_type: &str) -> (r: Option<u32>)
    requires
        old(lp).seq < u32::MAX,
    ensures
        (pointer_type@ == "touch"@ || pointer_type@ == "pen"@) ==> r == Some((old(lp).seq + 1) as u32)
            && final(lp).seq == old(lp).seq + 1 && final(lp).pressed,
        !(pointer_type@ == "touch"@ || pointer_type@ == "pen"@) ==> r is None && final(lp).seq == old(lp).seq
            && final(lp).pressed == old(lp).pressed,
{
    if !crate::text::str_eq(pointer_type, "touch") && !crate::text::str_eq(pointer_type, "pen") {
        return None;
    }
    lp.seq = lp.seq + 1;
    lp.pressed = true;
    Some(lp.seq)
}

/// The finger moved too far before the press ran out: the press is off.
pub fn press_cancelled(lp: &mut LongPress)
    requires
        old(lp).seq < u32::MAX,
    ensures
        !final(lp).pressed,
        final(lp).seq == old(lp).seq + 1,
{
    lp.pressed = false;
    lp.seq = lp.seq + 1;
}

/// The wait of press `seq` ran out: whether the drag starts. Only the latest
/// press, with the finger still down near where it pressed, starts it.
pub fn long_press_due(lp: &LongPress, seq: u32) -> (r: bool)
    ensures
        r == (seq == lp.seq && lp.pressed),
{
    seq == lp.seq && lp.pressed
}

} // verus!
