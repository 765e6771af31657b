//! Player bookkeeping: the queue signature, media-session metadata, and the
//! decisions of the native-audio driver and its progress poll.

use vstd::prelude::*;
use crate::mail_model::{clone_opt, opt_view};
use crate::text::{concat3, owned, push_char};

verus! {

broadcast use vstd::string::group_string_axioms;

/// A track in the play queue, with what the player reads of it.
pub struct PlayerTrack {
    pub file_id: String,
    pub file_name: String,
    pub title: Option<String>,
    pub artist: Option<String>,
    pub album: Option<String>,
    pub has_cover_art: bool,
}

/// The separator after each file id in a queue signature (ASCII unit separator).
pub open spec fn unit_separator() -> char {
    '\u{1f}'
}

/// The signature of a queue: each track's file id followed by the unit
/// separator.
pub open spec fn signature_of(ids: Seq<Seq<char>>) -> Seq<char>
    decreases ids.len(),
{
    if ids.len() == 0 {
        Seq::empty()
    } else {
        signature_of(ids.drop_last()) + ids.last().push(unit_separator())
    }
}

/// Whether no id of `ids` holds the unit separator.
pub open spec fn ids_free_of_separator(ids: Seq<Seq<char>>) -> bool {
    forall|i: int| 0 <= i < ids.len() ==> !(#[trigger] ids[i]).contains(unit_separator())
}

proof fn lemma_signature_ends(ids: Seq<Seq<char>>)
    requires
        ids.len() > 0,
    ensures
        signature_of(ids).len() > 0,
        signature_of(ids).last() == unit_separator(),
        signature_of(ids) == signature_of(ids.drop_last()) + ids.last() + seq![unit_separator()],
{
    assert(ids.last().push(unit_separator()) =~= ids.last() + seq![unit_separator()]);
    assert(signature_of(ids.drop_last()) + ids.last().push(unit_separator()) =~= signature_of(ids.drop_last())
        + ids.last() + seq![unit_separator()]);
}

proof fn lemma_signature_split(a: Seq<Seq<char>>, x: Seq<char>, b: Seq<Seq<char>>, y: Seq<char>)
    requires
        ids_free_of_separator(a),
        ids_free_of_separator(b),
        !x.contains(unit_separator()),
        !y.contains(unit_separator()),
        signature_of(a) + x == signature_of(b) + y,
    ensures
        a == b,
        x == y,
    decreases a.len() + b.len(),
{
    let sa = signature_of(a);
    let sb = signature_of(b);
    let t = sa + x;
    let sep = unit_separator();
    if x.len() < y.len() {
        if a.len() == 0 {
            assert(t.len() == x.len());
        } else {
            lemma_signature_ends(a);
            let p = sa.len() - 1;
            assert(t.len() == sb.len() + y.len());
            let k = p - sb.len();
            assert(0 <= k < y.len());
            assert(t[p] == sep);
            assert((sb + y)[p] == y[k]);
            assert(y[k] == sep);
            assert(y.contains(sep));
        }
    }
    if y.len() < x.len() {
        if b.len() == 0 {
            assert((sb + y).len() == y.len());
        } else {
            lemma_signature_ends(b);
            let p = sb.len() - 1;
            assert(t.len() == sb.len() + y.len());
            let k = p - sa.len();
            assert(0 <= k < x.len());
            assert((sb + y)[p] == sep);
            assert(t[p] == x[k]);
            assert(x[k] == sep);
            assert(x.contains(sep));
        }
    }
    assert(x.len() == y.len());
    assert(sa =~= t.take(sa.len() as int));
    assert(sb =~= (sb + y).take(sb.len() as int));
    assert(sa == sb);
    assert(x =~= t.skip(sa.len() as int));
    assert(y =~= (sb + y).skip(sb.len() as int));
    if a.len() == 0 {
        if b.len() > 0 {
            lemma_signature_ends(b);
        }
        assert(a =~= b);
    } else {
        lemma_signature_ends(a);
        if b.len() == 0 {
            assert(sa.len() > 0);
        } else {
            lemma_signature_ends(b);
            let la = a.last();
            let lb = b.last();
            let pa = signature_of(a.drop_last()) + la;
            let pb = signature_of(b.drop_last()) + lb;
            assert(sa =~= pa + seq![sep]);
            assert(sb =~= pb + seq![sep]);
            assert(pa =~= sa.drop_last());
            assert(pb =~= sb.drop_last());
            assert forall|i: int| 0 <= i < a.drop_last().len() implies !(#[trigger] a.drop_last()[i]).contains(sep) by {
                assert(a.drop_last()[i] == a[i]);
            }
            assert forall|i: int| 0 <= i < b.drop_last().len() implies !(#[trigger] b.drop_last()[i]).contains(sep) by {
                assert(b.drop_last()[i] == b[i]);
            }
            assert(a[a.len() - 1] == la);
            assert(b[b.len() - 1] == lb);
            lemma_signature_split(a.drop_last(), la, b.drop_last(), lb);
            assert(a =~= a.drop_last().push(la));
            assert(b =~= b.drop_last().push(lb));
        }
    }
}

/// The signature tells queues apart: when no file id holds the unit
/// separator, two queues have the same signature exactly when they list the
/// same ids in the same order.
pub proof fn lemma_signature_identifies_queue(a: Seq<Seq<char>>, b: Seq<Seq<char>>)
    requires
        ids_free_of_separator(a),
        ids_free_of_separator(b),
    ensures
        signature_of(a) == signature_of(b) <==> a == b,
{
    if signature_of(a) == signature_of(b) {
        assert(signature_of(a) + Seq::<char>::empty() =~= signature_of(a));
        assert(signature_of(b) + Seq::<char>::empty() =~= signature_of(b));
        lemma_signature_split(a, Seq::empty(), b, Seq::empty());
    }
}

/// The file ids of a queue.
pub open spec fn queue_ids(queue: Seq<PlayerTrack>) -> Seq<Seq<char>> {
    queue.map_values(|t: PlayerTrack| t.file_id@)
}

/// A signature of the queue, by which the native driver tells a new queue
/// from a move within the same queue.
pub fn queue_signature(queue: &Vec<PlayerTrack>) -> (r: String)
    ensures
        r@ == signature_of(queue_ids(queue@)),
{
    let mut s = String::new();
    let mut i: usize = 0;
    while i < queue.len()
        invariant
            i <= queue.len(),
            s@ == signature_of(queue_ids(queue@).take(i as int)),
        decreases queue.len() - i,
    {
        s.append(queue[i].file_id.as_str());
        push_char(&mut s, '\u{1f}');
        i = i + 1;
        assert(queue_ids(queue@).take(i as int).drop_last() =~= queue_ids(queue@).take(i - 1));
        assert(s@ =~= signature_of(queue_ids(queue@).take(i as int)));
    }
    assert(queue_ids(queue@).take(queue.len() as int) =~= queue_ids(queue@));
    s
}

/// What the media session shows for a track.
pub struct MediaMetadata {
    pub title: String,
    pub artist: String,
    pub album: String,
    /// The API path of the cover thumbnail, when the track has cover art.
    pub artwork_path: Option<String>,
}

/// The title of a track: its tag, else its file name.
pub open spec fn track_title(t: PlayerTrack) -> Seq<char> {
    match t.title {
        Some(x) => x@,
        None => t.file_name@,
    }
}

/// The artist of a track: its tag, else `"Unknown"`.
pub open spec fn track_artist(t: PlayerTrack) -> Seq<char> {
    match t.artist {
        Some(x) => x@,
        None => "Unknown"@,
    }
}

/// The album of a track: its tag, else empty.
pub open spec fn track_album(t: PlayerTrack) -> Seq<char> {
    match t.album {
        Some(x) => x@,
        None => Seq::empty(),
    }
}

/// The API path of a track's cover thumbnail, if it has cover art.
pub open spec fn artwork_path_of(t: PlayerTrack) -> Option<Seq<char>> {
    if t.has_cover_art {
        Some("/files/"@ + t.file_id@ + "/thumb"@)
    } else {
        None
    }
}

/// The media-session metadata of a track.
pub fn media_metadata_for(track: &PlayerTrack) -> (r: MediaMetadata)
    ensures
        r.title@ == track_title(*track),
        r.artist@ == track_artist(*track),
        r.album@ == track_album(*track),
        opt_view(r.artwork_path) == artwork_path_of(*track),
{
    let title = match &track.title {
        Some(x) => x.clone(),
        None => track.file_name.clone(),
    };
    let artist = match &track.artist {
        Some(x) => x.clone(),
        None => owned("Unknown"),
    };
    let album = match &track.album {
        Some(x) => x.clone(),
        None => String::new(),
    };
    let artwork_path = if track.has_cover_art {
        Some(concat3("/files/", track.file_id.as_str(), "/thumb"))
    } else {
        None
    };
    MediaMetadata { title, artist, album, artwork_path }
}

/// What the native driver remembers between runs: the signature of the queue
/// it loaded, and the index it last moved to.
pub struct NativeDriverState {
    pub last_queue_sig: Option<String>,
    pub last_native_index: i32,
}

/// What the native driver does on a change of the player state.
pub enum NativeAction {
    /// Nothing to do.
    Idle,
    /// The queue was emptied: forget the source and pause.
    ClearAndPause,
    /// A new queue: reset the position, load the whole queue from `start`,
    /// then play or pause.
    LoadQueue { start: usize, play: bool },
    /// Same queue, another item: reset the position, seek to it, and play if
    /// playing.
    SeekToItem { index: usize, play: bool },
    /// Same queue and item: only play or pause.
    SyncPlaying { play: bool },
}

/// The driver's state and action as plain values, for the spec.
pub open spec fn native_action_view(a: NativeAction) -> (int, int, bool) {
    match a {
        NativeAction::Idle => (0, 0, false),
        NativeAction::ClearAndPause => (1, 0, false),
        NativeAction::LoadQueue { start, play } => (2, start as int, play),
        NativeAction::SeekToItem { index, play } => (3, index as int, play),
        NativeAction::SyncPlaying { play } => (4, 0, play),
    }
}

/// The next state and action of the native driver, given the signature of the
/// current queue, whether it is empty, the current index and whether it plays.
pub open spec fn native_step(
    last_sig: Option<Seq<char>>,
    last_index: i32,
    sig: Seq<char>,
    queue_empty: bool,
    index: usize,
    playing: bool,
) -> (Option<Seq<char>>, i32, (int, int, bool)) {
    if queue_empty {
        if last_sig.is_some() {
            (None, -1i32, (1, 0, false))
        } else {
            (last_sig, last_index, (0, 0, false))
        }
    } else if last_sig != Some(sig) {
        (Some(sig), index as i32, (2, index as int, playing))
    } else if last_index != index as i32 {
        (last_sig, index as i32, (3, index as int, playing))
    } else {
        (last_sig, last_index, (4, 0, playing))
    }
}

/// One run of the native driver: updates its state and says what to do.
pub fn native_driver_step(
    state: &mut NativeDriverState,
    sig: String,
    queue_empty: bool,
    index: usize,
    playing: bool,
) -> (r: NativeAction)
    ensures
        (opt_view(final(state).last_queue_sig), final(state).last_native_index, native_action_view(r))
            == native_step(
            opt_view(old(state).last_queue_sig),
            old(state).last_native_index,
            sig@,
            queue_empty,
            index,
            playing,
        ),
{
    if queue_empty {
        if state.last_queue_sig.is_some() {
            state.last_queue_sig = None;
            state.last_native_index = -1;
            return NativeAction::ClearAndPause;
        }
        return NativeAction::Idle;
    }
    let changed = match &state.last_queue_sig {
        Some(s) => !s.eq(&sig),
        None => true,
    };
    if changed {
        state.last_queue_sig = Some(sig);
        state.last_native_index = index as i32;
        return NativeAction::LoadQueue { start: index, play: playing };
    }
    if state.last_native_index != index as i32 {
        state.last_native_index = index as i32;
        return NativeAction::SeekToItem { index, play: playing };
    }
    NativeAction::SyncPlaying { play: playing }
}

/// What one tick of the native progress poll changes in the player state.
pub struct PollOutcome {
    /// The index that the native player moved to on its own, if any.
    pub adopt_index: Option<usize>,
    /// Whether playback stopped at the end of the queue.
    pub stop_playing: bool,
}

/// One tick of the native progress poll: adopt the native player's index when
/// it is valid and differs from the one last set; stop when the native player
/// ended while the state still plays. `last_native_index` follows an adopted
/// index.
pub fn native_poll_step(
    last_native_index: &mut i32,
    queue_len: usize,
    playing: bool,
    native_index: i32,
    native_ended: bool,
) -> (r: PollOutcome)
    ensures
        (native_index >= 0 && native_index != *old(last_native_index) && (native_index as int) < queue_len)
            ==> r.adopt_index == Some(native_index as usize) && *final(last_native_index) == native_index,
        !(native_index >= 0 && native_index != *old(last_native_index) && (native_index as int) < queue_len)
            ==> r.adopt_index.is_none() && *final(last_native_index) == *old(last_native_index),
        r.stop_playing == (native_ended && playing),
{
    let mut adopt: Option<usize> = None;
    if native_index >= 0 && native_index != *last_native_index && (native_index as usize) < queue_len {
        *last_native_index = native_index;
        adopt = Some(native_index as usize);
    }
    PollOutcome { adopt_index: adopt, stop_playing: native_ended && playing }
}

/// How the player repeats.
#[derive(Clone, Copy, Debug, PartialEq, Eq, Structural)]
pub enum RepeatMode {
    Off,
    One,
    All,
}

/// The repeat mode as the native plugin names it.
pub open spec fn repeat_value(mode: RepeatMode) -> Seq<char> {
    match mode {
        RepeatMode::Off => "off"@,
        RepeatMode::One => "one"@,
        RepeatMode::All => "all"@,
    }
}

/// The repeat mode as the native plugin names it.
pub fn repeat_mode_value(mode: RepeatMode) -> (r: &'static str)
    ensures
        r@ == repeat_value(mode),
{
    match mode {
        RepeatMode::Off => "off",
        RepeatMode::One => "one",
        RepeatMode::All => "all",
    }
}

/// The tooltip of the repeat button.
pub fn repeat_title(mode: RepeatMode) -> (r: &'static str)
    ensures
        r@ == match mode {
            RepeatMode::Off => "Repeat: off"@,
            RepeatMode::All => "Repeat: all"@,
            RepeatMode::One => "Repeat: one"@,
        },
{
    match mode {
        RepeatMode::Off => "Repeat: off",
        RepeatMode::All => "Repeat: all",
        RepeatMode::One => "Repeat: one",
    }
}

/// What happens when a track ends in the browser player.
pub enum EndedAction {
    /// Play the same track again from the start.
    Restart,
    /// Move on to this index.
    Advance(usize),
    /// Stop playing.
    Stop,
}

/// The queue of the player as the page keeps it.
pub struct PlayerQueue {
    pub queue: Vec<PlayerTrack>,
    pub current_index: usize,
    pub playing: bool,
    /// The queue before shuffling, to go back to.
    pub original_queue: Option<Vec<PlayerTrack>>,
}

/// Switches to the track at `idx` and starts playing it; nothing happens
/// when the queue has no such track. Whether it switched.
pub fn play_index(p: &mut PlayerQueue, idx: usize) -> (r: bool)
    ensures
        r == (idx < old(p).queue.len()),
        r ==> final(p).current_index == idx && final(p).playing,
        !r ==> final(p).current_index == old(p).current_index && final(p).playing == old(p).playing,
        final(p).queue@ == old(p).queue@,
        final(p).original_queue == old(p).original_queue,
{
    if idx >= p.queue.len() {
        return false;
    }
    p.current_index = idx;
    p.playing = true;
    true
}

/// Closes the player: the queue empties, playback stops and the unshuffled
/// queue is forgotten.
pub fn close_player(p: &mut PlayerQueue)
    ensures
        final(p).queue@.len() == 0,
        final(p).current_index == 0,
        !final(p).playing,
        final(p).original_queue is None,
{
    p.queue = Vec::new();
    p.current_index = 0;
    p.playing = false;
    p.original_queue = None;
}

/// What happens when a track ends: repeat-one restarts it; otherwise the next
/// index (as the queue computes it with wrap-around for repeat-all) is played,
/// or playback stops.
pub fn track_ended_action(mode: RepeatMode, next: Option<usize>) -> (r: EndedAction)
    ensures
        mode == RepeatMode::One ==> r is Restart,
        mode != RepeatMode::One ==> match next {
            Some(i) => r == EndedAction::Advance(i),
            None => r is Stop,
        },
{
    if mode == RepeatMode::One {
        return EndedAction::Restart;
    }
    match next {
        Some(i) => EndedAction::Advance(i),
        None => EndedAction::Stop,
    }
}

/// The native driver settles: run again on the same player state it keeps
/// its state, loads nothing and seeks nowhere; it only syncs play or pause,
/// or idles when the queue is empty.
pub proof fn lemma_native_step_settles(
    last_sig: Option<Seq<char>>,
    last_index: i32,
    sig: Seq<char>,
    queue_empty: bool,
    index: usize,
    playing: bool,
)
    ensures
        ({
            let first = native_step(last_sig, last_index, sig, queue_empty, index, playing);
            let second = native_step(first.0, first.1, sig, queue_empty, index, playing);
            &&& second.0 == first.0
            &&& second.1 == first.1
            &&& second.2 == (if queue_empty {
                (0int, 0int, false)
            } else {
                (4int, 0int, playing)
            })
        }),
{
}

/// What the browser-mode driver does with the audio element on a change of
/// the player state.
pub struct BrowserSync {
    /// The source to load (pausing and resetting the position first), when
    /// the current track changed to one.
    pub load: Option<String>,
    /// Whether to play (else pause): the state plays and there is a track.
    pub play: bool,
}

/// One run of the browser-mode driver: `last_src` follows the current
/// track's source; a changed source that is present is loaded.
pub fn browser_driver_step(desired: Option<String>, last_src: &mut Option<String>, playing: bool) -> (r: BrowserSync)
    ensures
        opt_view(*final(last_src)) == opt_view(desired),
        opt_view(r.load) == if opt_view(desired) != opt_view(*old(last_src)) {
            opt_view(desired)
        } else {
            None
        },
        r.play == (playing && desired.is_some()),
{
    let changed = match (&desired, &*last_src) {
        (Some(a), Some(b)) => !a.eq(b),
        (None, None) => false,
        _ => true,
    };
    let play = playing && desired.is_some();
    let load = if changed {
        clone_opt(&desired)
    } else {
        None
    };
    *last_src = desired;
    BrowserSync { load, play }
}

/// The style of the shuffle and repeat buttons: highlighted while on.
pub fn toggle_button_class(on: bool) -> (r: &'static str)
    ensures
        r@ == if on {
            "btn btn-ghost btn-sm btn-circle text-primary"@
        } else {
            "btn btn-ghost btn-sm btn-circle"@
        },
{
    if on {
        "btn btn-ghost btn-sm btn-circle text-primary"
    } else {
        "btn btn-ghost btn-sm btn-circle"
    }
}

/// What the "previous" button does.
pub enum PreviousAction {
    /// Seek back to the start of the current track.
    Restart,
    /// Play this earlier index.
    GoTo(usize),
    /// Nothing.
    Nothing,
}

/// The "previous" button: past the first three seconds of a track it
/// restarts the track, else it goes to the previous index if there is one.
pub fn previous_action(past_three_seconds: bool, previous: Option<usize>) -> (r: PreviousAction)
    ensures
        past_three_seconds ==> r is Restart,
        !past_three_seconds ==> match previous {
            Some(i) => r == PreviousAction::GoTo(i),
            None => r is Nothing,
        },
{
    if past_three_seconds {
        return PreviousAction::Restart;
    }
    match previous {
        Some(i) => PreviousAction::GoTo(i),
        None => PreviousAction::Nothing,
    }
}

} // verus!
