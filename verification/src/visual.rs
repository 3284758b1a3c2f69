//! Integer bookkeeping of the visualizer engine: the order in which channel
//! meters are laid out, and the rolling row of the spectrum heatmap.
use vstd::prelude::*;

verus! {

/// The number of channel meters shown: at most 32.
pub open spec fn shown_channels(num_channels: int) -> int {
    if num_channels < 32 {
        num_channels
    } else {
        32
    }
}

/// The order in which channels are drawn. For non-tracker audio, 5.1 and 7.1
/// layouts and 16 channels are fanned out from the centre (left surrounds
/// left, right surrounds right); otherwise channels keep their order.
pub open spec fn display_order_spec(num_channels: int, is_tracker: bool) -> Seq<usize> {
    let n = shown_channels(num_channels);
    if !is_tracker && n == 6 {
        seq![4usize, 0, 2, 3, 1, 5]
    } else if !is_tracker && n == 8 {
        seq![6usize, 4, 0, 2, 3, 1, 5, 7]
    } else if !is_tracker && n == 16 {
        seq![14usize, 12, 10, 8, 6, 4, 0, 2, 3, 1, 5, 7, 9, 11, 13, 15]
    } else {
        Seq::new(n as nat, |i: int| i as usize)
    }
}

/// The order in which the channel meters are drawn (see `display_order_spec`).
pub fn channel_display_order(num_channels: usize, is_tracker: bool) -> (r: Vec<usize>)
    ensures
        r@ == display_order_spec(num_channels as int, is_tracker),
{
    let n = if num_channels < 32 {
        num_channels
    } else {
        32
    };
    if !is_tracker && n == 6 {
        let r = vec![4usize, 0, 2, 3, 1, 5];
        assert(r@ =~= display_order_spec(num_channels as int, is_tracker));
        r
    } else if !is_tracker && n == 8 {
        let r = vec![6usize, 4, 0, 2, 3, 1, 5, 7];
        assert(r@ =~= display_order_spec(num_channels as int, is_tracker));
        r
    } else if !is_tracker && n == 16 {
        let r = vec![14usize, 12, 10, 8, 6, 4, 0, 2, 3, 1, 5, 7, 9, 11, 13, 15];
        assert(r@ =~= display_order_spec(num_channels as int, is_tracker));
        r
    } else {
        let mut r: Vec<usize> = Vec::new();
        for i in 0..n
            invariant
                r@ =~= Seq::new(i as nat, |k: int| k as usize),
        {
            r.push(i);
        }
        r
    }
}

/// Every shown channel is drawn exactly once: the display order is a
/// permutation of the shown channels.
pub proof fn law_display_order_is_permutation(num_channels: int, is_tracker: bool)
    requires
        num_channels >= 0,
    ensures
        display_order_spec(num_channels, is_tracker).len() == shown_channels(num_channels),
        forall|i: int|
            0 <= i < display_order_spec(num_channels, is_tracker).len() ==> #[trigger] display_order_spec(
                num_channels,
                is_tracker,
            )[i] < shown_channels(num_channels),
        forall|i: int, j: int|
            0 <= i < j < display_order_spec(num_channels, is_tracker).len() ==> display_order_spec(
                num_channels,
                is_tracker,
            )[i] != display_order_spec(num_channels, is_tracker)[j],
{
    let s = display_order_spec(num_channels, is_tracker);
    let n = shown_channels(num_channels);
    if !is_tracker && (n == 6 || n == 8 || n == 16) {
        assert forall|i: int, j: int| 0 <= i < j < s.len() implies s[i] != s[j] by {
            assert(s[i] != s[j]);
        }
    }
}

/// The heatmap after the DSP thread's push counter reads `push_count` when it
/// last read `last_count`: when pushes happened, the row advances by their
/// number (taken modulo 2^32, as a `u32`) around the 1024 rows; the counter
/// is remembered either way. The flag says whether the counter changed.
pub open spec fn heatmap_advance_spec(row: u32, last_count: u64, push_count: u64) -> (u32, u64, bool) {
    if push_count > last_count {
        (((row + (push_count - last_count) % 0x1_0000_0000) % 1024) as u32, push_count, true)
    } else {
        (row, push_count, push_count != last_count)
    }
}

/// Advances the heatmap row for new pushes (see `heatmap_advance_spec`).
pub fn advance_heatmap_row(row: u32, last_count: u64, push_count: u64) -> (r: (u32, u64, bool))
    requires
        push_count > last_count ==> row + (push_count - last_count) % 0x1_0000_0000 <= u32::MAX,
    ensures
        r == heatmap_advance_spec(row, last_count, push_count),
        r.0 < 1024 || r.0 == row,
{
    if push_count > last_count {
        let steps = ((push_count - last_count) % 0x1_0000_0000) as u32;
        ((row + steps) % 1024, push_count, true)
    } else {
        (row, push_count, push_count != last_count)
    }
}

} // verus!
