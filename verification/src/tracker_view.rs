//! The tracker pattern panel: which pattern row is drawn at each offset from
//! the playing row, and the text of each drawn row.
use vstd::prelude::*;
use crate::ipc::{decimal, decimal_chars};
use crate::text::{chars_of, string_of, concat_chars, slice_chars};

verus! {

/// The row lengths of the patterns, in play order.
pub open spec fn pattern_lens(patterns: Seq<Vec<String>>) -> Seq<int> {
    patterns.map_values(|p: Vec<String>| p@.len() as int)
}

/// Walking back from a row before the start of pattern `order`: while the
/// row is negative and an earlier pattern exists, step into the previous
/// pattern, adding its length to the row; stepping onto an order that has
/// no pattern stops the walk there.
pub open spec fn walk_back(order: int, row: int, lens: Seq<int>) -> (int, int)
    decreases order,
{
    if row < 0 && order > 0 {
        if order - 1 < lens.len() {
            walk_back(order - 1, row + lens[order - 1], lens)
        } else {
            (order - 1, row)
        }
    } else {
        (order, row)
    }
}

/// Walking forward from a row past the end of pattern `order`: while the
/// order has a pattern and the row is not inside it, step into the next
/// pattern, taking its length off the row.
pub open spec fn walk_forward(order: int, row: int, lens: Seq<int>) -> (int, int)
    decreases lens.len() - order,
{
    if 0 <= order < lens.len() && row >= lens[order] {
        walk_forward(order + 1, row - lens[order], lens)
    } else {
        (order, row)
    }
}

/// The pattern and row drawn `offset` rows from the playing row `row` of
/// pattern `order`. Rows above it come from the play history (the newest
/// first) while it reaches, and from walking back through the patterns
/// after that; rows below it walk forward. Nothing is drawn where the
/// result is not a row of a pattern.
pub open spec fn row_at_offset(
    order: int,
    row: int,
    offset: int,
    history: Seq<(i32, i32)>,
    lens: Seq<int>,
) -> Option<(int, int)> {
    let target: (int, int) = if offset < 0 {
        let h = -offset - 1;
        if h < history.len() {
            (history[h].0 as int, history[h].1 as int)
        } else {
            walk_back(order, row + offset, lens)
        }
    } else if offset > 0 {
        walk_forward(order, row + offset, lens)
    } else {
        (order, row)
    };
    if 0 <= target.0 < lens.len() && 0 <= target.1 < lens[target.0] {
        Some(target)
    } else {
        None
    }
}

fn walk_back_exec(order: i32, row: i32, patterns: &Vec<Vec<String>>) -> (r: (i32, i32))
    requires
        patterns.len() <= i32::MAX,
        forall|i: int| 0 <= i < patterns.len() ==> #[trigger] patterns@[i]@.len() <= i32::MAX,
    ensures
        (r.0 as int, r.1 as int) == walk_back(order as int, row as int, pattern_lens(patterns@)),
{
    let ghost lens = pattern_lens(patterns@);
    let mut o = order;
    let mut r = row;
    while r < 0 && o > 0
        invariant
            lens == pattern_lens(patterns@),
            patterns.len() <= i32::MAX,
            forall|i: int| 0 <= i < patterns.len() ==> #[trigger] patterns@[i]@.len() <= i32::MAX,
            walk_back(order as int, row as int, lens) == walk_back(o as int, r as int, lens),
        decreases o,
    {
        o = o - 1;
        if (o as usize) < patterns.len() {
            assert(lens[o as int] == patterns@[o as int]@.len());
            r = r + patterns[o as usize].len() as i32;
        } else {
            return (o, r);
        }
    }
    (o, r)
}

fn walk_forward_exec(order: i32, row: i32, patterns: &Vec<Vec<String>>) -> (r: (i32, i32))
    requires
        patterns.len() <= i32::MAX,
        forall|i: int| 0 <= i < patterns.len() ==> #[trigger] patterns@[i]@.len() <= i32::MAX,
    ensures
        (r.0 as int, r.1 as int) == walk_forward(order as int, row as int, pattern_lens(patterns@)),
{
    let ghost lens = pattern_lens(patterns@);
    let mut o = order;
    let mut r = row;
    while o >= 0 && (o as usize) < patterns.len()
        invariant
            lens == pattern_lens(patterns@),
            patterns.len() <= i32::MAX,
            forall|i: int| 0 <= i < patterns.len() ==> #[trigger] patterns@[i]@.len() <= i32::MAX,
            walk_forward(order as int, row as int, lens) == walk_forward(o as int, r as int, lens),
        decreases patterns.len() - o,
    {
        assert(lens[o as int] == patterns@[o as int]@.len());
        let len = patterns[o as usize].len() as i32;
        if r >= len {
            r = r - len;
            o = o + 1;
        } else {
            return (o, r);
        }
    }
    (o, r)
}

/// The pattern and row (as positions in `patterns` and in the pattern)
/// drawn `offset` rows from the playing row `row` of pattern `order` (see
/// `row_at_offset`); `history` holds the rows played before it, newest first.
pub fn tracker_row_at(
    order: i32,
    row: i32,
    offset: i32,
    history: &Vec<(i32, i32)>,
    patterns: &Vec<Vec<String>>,
) -> (r: Option<(usize, usize)>)
    requires
        offset > i32::MIN,
        i32::MIN <= row + offset <= i32::MAX,
        patterns.len() <= i32::MAX,
        forall|i: int| 0 <= i < patterns.len() ==> #[trigger] patterns@[i]@.len() <= i32::MAX,
    ensures
        match r {
            Some((o, w)) => row_at_offset(order as int, row as int, offset as int, history@, pattern_lens(patterns@))
                == Some((o as int, w as int)),
            None => row_at_offset(order as int, row as int, offset as int, history@, pattern_lens(patterns@))
                is None,
        },
{
    let ghost lens = pattern_lens(patterns@);
    let (o, w) = if offset < 0 {
        let h = (-offset - 1) as usize;
        if h < history.len() {
            history[h]
        } else {
            walk_back_exec(order, row + offset, patterns)
        }
    } else if offset > 0 {
        walk_forward_exec(order, row + offset, patterns)
    } else {
        (order, row)
    };
    if o >= 0 && (o as usize) < patterns.len() {
        assert(lens[o as int] == patterns@[o as int]@.len());
        if w >= 0 && (w as usize) < patterns[o as usize].len() {
            return Some((o as usize, w as usize));
        }
    }
    None
}

/// The number of rows in the patterns before order `o`: the position, in
/// the whole song, of the first row of pattern `o`.
pub open spec fn rows_before(lens: Seq<int>, o: int) -> int
    decreases o,
{
    if o <= 0 || lens.len() == 0 {
        0
    } else if o > lens.len() {
        rows_before(lens, lens.len() as int)
    } else {
        rows_before(lens, o - 1) + lens[o - 1]
    }
}

/// Walking forward keeps the position in the song, and ends inside a
/// pattern or past the last one.
pub proof fn lemma_walk_forward(order: int, row: int, lens: Seq<int>)
    requires
        0 <= order <= lens.len(),
        forall|i: int| 0 <= i < lens.len() ==> lens[i] >= 0,
    ensures
        order <= walk_forward(order, row, lens).0 <= lens.len(),
        rows_before(lens, walk_forward(order, row, lens).0) + walk_forward(order, row, lens).1
            == rows_before(lens, order) + row,
        walk_forward(order, row, lens).0 < lens.len() ==> walk_forward(order, row, lens).1
            < lens[walk_forward(order, row, lens).0],
        row >= 0 ==> walk_forward(order, row, lens).1 >= 0,
    decreases lens.len() - order,
{
    if 0 <= order < lens.len() && row >= lens[order] {
        lemma_walk_forward(order + 1, row - lens[order], lens);
    }
}

/// Walking back from a row before the end of its pattern keeps the position
/// in the song, and ends at a row inside its pattern, or before the first.
pub proof fn lemma_walk_back(order: int, row: int, lens: Seq<int>)
    requires
        0 <= order < lens.len(),
        row < lens[order],
        forall|i: int| 0 <= i < lens.len() ==> lens[i] >= 0,
    ensures
        0 <= walk_back(order, row, lens).0 <= order,
        rows_before(lens, walk_back(order, row, lens).0) + walk_back(order, row, lens).1
            == rows_before(lens, order) + row,
        walk_back(order, row, lens).1 < lens[walk_back(order, row, lens).0],
        walk_back(order, row, lens).1 >= 0 || walk_back(order, row, lens).0 == 0,
    decreases order,
{
    if row < 0 && order > 0 {
        lemma_walk_back(order - 1, row + lens[order - 1], lens);
    }
}

/// Rows below the playing row continue into the following patterns in play
/// order: the row drawn `offset` rows below it is the one `offset` rows
/// further on in the song, whenever the song has that many rows left, and
/// none is drawn otherwise.
pub proof fn law_rows_below_follow_play_order(
    order: int,
    row: int,
    offset: int,
    history: Seq<(i32, i32)>,
    lens: Seq<int>,
)
    requires
        0 <= order < lens.len(),
        0 <= row < lens[order],
        offset > 0,
        forall|i: int| 0 <= i < lens.len() ==> lens[i] >= 0,
    ensures
        match row_at_offset(order, row, offset, history, lens) {
            Some((o, w)) => rows_before(lens, o) + w == rows_before(lens, order) + row + offset,
            None => rows_before(lens, order) + row + offset >= rows_before(lens, lens.len() as int),
        },
{
    lemma_walk_forward(order, row + offset, lens);
}

/// Rows above the playing row, beyond what the play history holds, continue
/// back through the earlier patterns in play order: the row drawn there is
/// the one `-offset` rows earlier in the song, whenever the song has that
/// many rows before it, and none is drawn otherwise.
pub proof fn law_rows_above_follow_play_order(
    order: int,
    row: int,
    offset: int,
    history: Seq<(i32, i32)>,
    lens: Seq<int>,
)
    requires
        0 <= order < lens.len(),
        0 <= row < lens[order],
        offset < 0,
        -offset - 1 >= history.len(),
        forall|i: int| 0 <= i < lens.len() ==> lens[i] >= 0,
    ensures
        match row_at_offset(order, row, offset, history, lens) {
            Some((o, w)) => rows_before(lens, o) + w == rows_before(lens, order) + row + offset,
            None => rows_before(lens, order) + row + offset < 0,
        },
{
    lemma_walk_back(order, row + offset, lens);
    assert(rows_before(lens, 0) == 0);
}


/// The text of a drawn pattern row: its number, zero-padded to two digits,
/// a bar, and at most `max_chars` characters of the row's notes.
pub open spec fn row_label_spec(row: nat, notes: Seq<char>, max_chars: nat) -> Seq<char> {
    let number = if row < 10 {
        seq!['0'] + decimal(row)
    } else {
        decimal(row)
    };
    let shown = if notes.len() > max_chars {
        notes.take(max_chars as int)
    } else {
        notes
    };
    number + " | "@ + shown
}

/// The text of a drawn pattern row (see `row_label_spec`).
pub fn tracker_row_label(row: usize, notes: &str, max_chars: usize) -> (r: String)
    ensures
        r@ == row_label_spec(row as nat, notes@, max_chars as nat),
{
    let digits = decimal_chars(row);
    let number = if row < 10 {
        let mut z: Vec<char> = Vec::new();
        z.push('0');
        concat_chars(&z, &digits)
    } else {
        digits
    };
    assert(number@ == (if row < 10 {
        seq!['0'] + decimal(row as nat)
    } else {
        decimal(row as nat)
    }));
    let n = chars_of(notes);
    let shown = if n.len() > max_chars {
        slice_chars(&n, 0, max_chars)
    } else {
        n
    };
    proof {
        reveal_strlit(" | ");
        assert(notes@.take(max_chars as int) == notes@.subrange(0, max_chars as int));
    }
    string_of(&concat_chars(&concat_chars(&number, &chars_of(" | ")), &shown))
}

} // verus!
