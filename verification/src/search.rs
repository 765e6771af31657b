//! The search box of the top bar: its debounced request state machine, and
//! the unit in which the results show a file size.

use vstd::prelude::*;
use crate::text::{blank, i64_to_decimal, concat2, is_blank, signed_decimal};

verus! {

/// The unit of a file size label.
#[derive(Clone, Copy, Debug, PartialEq, Eq, Structural)]
pub enum SizeUnit {
    /// Whole bytes, written out exactly.
    Bytes,
    /// Kibibytes, one decimal.
    Kilo,
    /// Mebibytes, one decimal.
    Mega,
    /// Gibibytes, one decimal.
    Giga,
}

/// The unit for a size of `bytes`: bytes below 1024, then KB below 1024²,
/// MB below 1024³, else GB. Negative sizes count as bytes.
pub open spec fn unit_of(bytes: int) -> SizeUnit {
    if bytes < 1024 {
        SizeUnit::Bytes
    } else if bytes < 1024 * 1024 {
        SizeUnit::Kilo
    } else if bytes < 1024 * 1024 * 1024 {
        SizeUnit::Mega
    } else {
        SizeUnit::Giga
    }
}

/// Picks the unit in which a file size is shown.
pub fn size_unit(bytes: i64) -> (r: SizeUnit)
    ensures
        r == unit_of(bytes as int),
{
    if bytes < 1024 {
        SizeUnit::Bytes
    } else if bytes < 1024 * 1024 {
        SizeUnit::Kilo
    } else if bytes < 1024 * 1024 * 1024 {
        SizeUnit::Mega
    } else {
        SizeUnit::Giga
    }
}

/// The divisor that turns a size into its unit.
pub fn unit_divisor(unit: SizeUnit) -> (r: i64)
    ensures
        r == match unit {
            SizeUnit::Bytes => 1int,
            SizeUnit::Kilo => 1024int,
            SizeUnit::Mega => 1024int * 1024,
            SizeUnit::Giga => 1024int * 1024 * 1024,
        },
{
    match unit {
        SizeUnit::Bytes => 1,
        SizeUnit::Kilo => 1024,
        SizeUnit::Mega => 1024 * 1024,
        SizeUnit::Giga => 1024 * 1024 * 1024,
    }
}

/// The label of a size below one KB: the exact count and `B`.
pub fn byte_size_label(bytes: i64) -> (r: String)
    requires
        bytes < 1024,
    ensures
        r@ == signed_decimal(bytes as int) + " B"@,
{
    concat2(i64_to_decimal(bytes).as_str(), " B")
}

/// The state of the search box. The hits themselves stay with the page; the
/// box knows how many it shows.
pub struct SearchBox {
    /// The text typed.
    pub query: String,
    /// The number of the latest request; older replies are dropped.
    pub generation: u32,
    /// Whether a request is under way.
    pub loading: bool,
    /// Whether the result list is open.
    pub show_dropdown: bool,
    /// How many hits the list holds.
    pub result_count: usize,
}

/// A closed, empty search box.
pub fn new_search_box() -> (r: SearchBox)
    ensures
        r.query@.len() == 0,
        r.generation == 0,
        !r.loading,
        !r.show_dropdown,
        r.result_count == 0,
{
    SearchBox { query: String::new(), generation: 0, loading: false, show_dropdown: false, result_count: 0 }
}

/// Typing into the box: a blank text clears the hits and closes the list;
/// any other text starts a new request number, returned to wait on before
/// the request is sent.
pub fn search_input(b: &mut SearchBox, value: String) -> (r: Option<u32>)
    requires
        old(b).generation < u32::MAX,
    ensures
        final(b).query@ == value@,
        blank(value@) ==> r is None && final(b).result_count == 0 && !final(b).show_dropdown
            && final(b).generation == old(b).generation && final(b).loading == old(b).loading,
        !blank(value@) ==> r == Some((old(b).generation + 1) as u32) && final(b).generation == old(b).generation + 1
            && final(b).result_count == old(b).result_count && final(b).show_dropdown == old(b).show_dropdown
            && final(b).loading == old(b).loading,
{
    let is_empty = is_blank(value.as_str());
    b.query = value;
    if is_empty {
        b.result_count = 0;
        b.show_dropdown = false;
        return None;
    }
    b.generation = b.generation + 1;
    Some(b.generation)
}

/// The wait after typing is over for request `generation`: whether to send
/// it. Only the latest request is sent; sending it opens the list and shows
/// that a request is under way.
pub fn search_wait_over(b: &mut SearchBox, generation: u32) -> (r: bool)
    ensures
        r == (generation == old(b).generation),
        r ==> final(b).loading && final(b).show_dropdown,
        !r ==> final(b).loading == old(b).loading && final(b).show_dropdown == old(b).show_dropdown,
        final(b).query == old(b).query,
        final(b).generation == old(b).generation,
        final(b).result_count == old(b).result_count,
{
    if generation != b.generation {
        return false;
    }
    b.loading = true;
    b.show_dropdown = true;
    true
}

/// The reply to request `generation` came back with `hits` hits, or failed
/// (`None`): whether the page keeps the new hits. Only the latest request
/// touches the list: its hits replace the list, its failure empties it; a
/// reply to an older request leaves the list as it is.
pub fn search_reply(b: &mut SearchBox, generation: u32, hits: Option<usize>) -> (r: bool)
    ensures
        r == (hits is Some && generation == old(b).generation),
        r ==> final(b).result_count == hits.unwrap(),
        (hits is None && generation == old(b).generation) ==> final(b).result_count == 0,
        generation != old(b).generation ==> final(b).result_count == old(b).result_count,
        !final(b).loading,
        final(b).query == old(b).query,
        final(b).generation == old(b).generation,
        final(b).show_dropdown == old(b).show_dropdown,
{
    b.loading = false;
    if generation != b.generation {
        return false;
    }
    match hits {
        Some(n) => {
            b.result_count = n;
            true
        },
        None => {
            b.result_count = 0;
            false
        },
    }
}

/// The box gets the focus back: the list reopens when there are hits for a
/// text.
pub fn search_focus(b: &mut SearchBox)
    ensures
        final(b).show_dropdown == (old(b).show_dropdown || (!blank(old(b).query@) && old(b).result_count > 0)),
        final(b).query == old(b).query,
        final(b).generation == old(b).generation,
        final(b).loading == old(b).loading,
        final(b).result_count == old(b).result_count,
{
    if !is_blank(b.query.as_str()) && b.result_count > 0 {
        b.show_dropdown = true;
    }
}

/// The box lost the focus a moment ago: the list closes.
pub fn search_blur_over(b: &mut SearchBox)
    ensures
        !final(b).show_dropdown,
        final(b).query == old(b).query,
        final(b).generation == old(b).generation,
        final(b).loading == old(b).loading,
        final(b).result_count == old(b).result_count,
{
    b.show_dropdown = false;
}

/// A hit was picked: the box empties and closes before the page opens the
/// hit's folder.
pub fn search_hit_picked(b: &mut SearchBox)
    ensures
        final(b).query@.len() == 0,
        final(b).result_count == 0,
        !final(b).show_dropdown,
        final(b).generation == old(b).generation,
        final(b).loading == old(b).loading,
{
    b.query = String::new();
    b.result_count = 0;
    b.show_dropdown = false;
}

/// Whether the open list says that nothing was found.
pub fn shows_no_results(b: &SearchBox) -> (r: bool)
    ensures
        r == (b.result_count == 0 && !b.loading && !blank(b.query@)),
{
    b.result_count == 0 && !b.loading && !is_blank(b.query.as_str())
}

} // verus!
