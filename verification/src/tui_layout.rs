//! The text layout of the terminal view: panel proportions, meter and
//! label widths, the heatmap window, the spectrum's frequency labels, the
//! track panel's title and shortened paths.
use vstd::prelude::*;
use crate::ipc::{decimal, decimal_chars};
use crate::text::{chars_of, string_of, has_prefix, starts_with_chars, slice_chars, concat_chars};

verus! {

/// The widths (in percent) of the meters, heatmap and track panels for a
/// terminal `width` columns wide: narrow terminals drop the heatmap.
pub fn top_panel_percentages(width: u16) -> (r: (u16, u16, u16))
    ensures
        r == (if width < 80 {
            (40u16, 0u16, 60u16)
        } else if width < 110 {
            (30u16, 40u16, 30u16)
        } else {
            (30u16, 50u16, 20u16)
        }),
        r.0 + r.1 + r.2 == 100,
{
    if width < 80 {
        (40, 0, 60)
    } else if width < 110 {
        (30, 40, 30)
    } else {
        (30, 50, 20)
    }
}

/// The columns each of `count` items gets in `width` columns: at least one.
pub fn cells_per_item(width: usize, count: usize) -> (r: usize)
    ensures
        r == (if count == 0 {
            if width == 0 {
                1
            } else {
                width
            }
        } else if width / count == 0 {
            1
        } else {
            width / count
        }),
        r >= 1,
{
    let c = if count == 0 {
        1
    } else {
        count
    };
    let w = width / c;
    if w == 0 {
        1
    } else {
        w
    }
}

/// `n` spaces.
pub open spec fn spaces(n: nat) -> Seq<char> {
    Seq::new(n, |i: int| ' ')
}

/// `s` centred in `width` columns as `{:^width}` does: the smaller half of
/// the padding on the left.
pub open spec fn centered(s: Seq<char>, width: nat) -> Seq<char> {
    if s.len() >= width {
        s
    } else {
        let pad = (width - s.len()) as nat;
        spaces(pad / 2) + s + spaces((pad - pad / 2) as nat)
    }
}

/// `s` right-aligned in `width` columns as `{:>width}` does.
pub open spec fn right_aligned(s: Seq<char>, width: nat) -> Seq<char> {
    if s.len() >= width {
        s
    } else {
        spaces((width - s.len()) as nat) + s
    }
}

/// The label under channel meter `index` (counting from 1) in `cells`
/// columns: every other label is blank when the columns are fewer than 3;
/// one column shows the number or `+` when it has more digits; two columns
/// right-align it; more centre it.
pub open spec fn vu_label_spec(index: nat, cells: nat) -> Seq<char> {
    let label = decimal(index + 1);
    if !(cells >= 3 || index % 2 == 0) {
        spaces(cells)
    } else if cells == 1 {
        if label.len() == 1 {
            label
        } else {
            seq!['+']
        }
    } else if cells == 2 {
        right_aligned(label, 2)
    } else {
        centered(label, cells)
    }
}

fn spaces_exec(n: usize) -> (r: Vec<char>)
    ensures
        r@ == spaces(n as nat),
{
    let mut v: Vec<char> = Vec::new();
    for i in 0..n
        invariant
            v@ =~= spaces(i as nat),
    {
        v.push(' ');
    }
    v
}

/// The label under channel meter `index` (see `vu_label_spec`).
pub fn vu_label(index: usize, cells: usize) -> (r: String)
    requires
        index < usize::MAX,
    ensures
        r@ == vu_label_spec(index as nat, cells as nat),
{
    let label = decimal_chars(index + 1);
    if !(cells >= 3 || index % 2 == 0) {
        return string_of(&spaces_exec(cells));
    }
    if cells == 1 {
        if label.len() == 1 {
            string_of(&label)
        } else {
            proof {
                reveal_strlit("+");
            }
            string_of(&chars_of("+"))
        }
    } else if cells == 2 {
        if label.len() >= 2 {
            string_of(&label)
        } else {
            string_of(&concat_chars(&spaces_exec(2 - label.len()), &label))
        }
    } else {
        if label.len() >= cells {
            string_of(&label)
        } else {
            let pad = cells - label.len();
            let left = concat_chars(&spaces_exec(pad / 2), &label);
            string_of(&concat_chars(&left, &spaces_exec(pad - pad / 2)))
        }
    }
}

/// The spectrum history rows shown in a heatmap `height` rows tall: each
/// text row shows two history rows, and the newest fit.
pub fn heatmap_window(history_len: usize, height: usize) -> (r: (usize, usize))
    ensures
        r.1 == history_len / 2,
        r.0 == (if history_len / 2 > height {
            history_len / 2 - height
        } else {
            0
        }),
        r.0 <= r.1,
{
    let total = history_len / 2;
    let start = if total > height {
        total - height
    } else {
        0
    };
    (start, total)
}

/// `line` with `text` written from column `bin * cells`, moved left to end
/// at the last column when it would run past it; characters past the end
/// are dropped.
pub open spec fn write_label(line: Seq<char>, bin: int, cells: int, text: Seq<char>) -> Seq<char> {
    let width = line.len() as int;
    let start = if bin * cells + text.len() > width {
        if width > text.len() {
            width - text.len()
        } else {
            0
        }
    } else {
        bin * cells
    };
    Seq::new(
        line.len(),
        |k: int|
            if start <= k < start + text.len() {
                text[k - start]
            } else {
                line[k]
            },
    )
}

/// The frequency labels under the spectrum: blank `width` columns, with
/// `0Hz`, `2.5kHz`, `5kHz`, `7.5kHz` and `10kHz` under bins 0, 32, 64, 96
/// and 127 when there are at least 128 bins.
pub open spec fn spectrum_labels_spec(width: nat, cells: int, bins: int) -> Seq<char> {
    let blank = spaces(width);
    if bins >= 128 {
        let l1 = write_label(blank, 0, cells, "0Hz"@);
        let l2 = write_label(l1, 32, cells, "2.5kHz"@);
        let l3 = write_label(l2, 64, cells, "5kHz"@);
        let l4 = write_label(l3, 96, cells, "7.5kHz"@);
        write_label(l4, 127, cells, "10kHz"@)
    } else {
        blank
    }
}

fn write_label_exec(line: &mut Vec<char>, bin: usize, cells: usize, text: &str)
    requires
        bin <= 127,
        127 * cells + 5 <= usize::MAX,
    ensures
        final(line)@ == write_label(old(line)@, bin as int, cells as int, text@),
{
    let t = chars_of(text);
    let width = line.len();
    assert(bin * cells <= 127 * cells) by (nonlinear_arith)
        requires
            bin <= 127,
    ;
    let mut start = bin * cells;
    if t.len() > width || start > width - t.len() {
        start = if width > t.len() {
            width - t.len()
        } else {
            0
        };
    }
    assert(start as int == (if bin * cells + t@.len() > width {
        if width > t@.len() {
            width - t@.len()
        } else {
            0
        }
    } else {
        bin * cells
    }));
    let ghost orig = line@;
    let mut j: usize = 0;
    while j < t.len()
        invariant
            start <= width,
            line@.len() == width,
            width == orig.len(),
            j <= t.len(),
            forall|k: int|
                0 <= k < width ==> #[trigger] line@[k] == (if start <= k < start + j {
                    t@[k - start]
                } else {
                    orig[k]
                }),
        decreases t.len() - j,
    {
        if j < width - start {
            line.set(start + j, t[j]);
        }
        j = j + 1;
    }
    assert(line@ =~= write_label(orig, bin as int, cells as int, text@));
}

/// The frequency labels under the spectrum (see `spectrum_labels_spec`).
pub fn spectrum_labels(width: usize, cells: usize, bins: usize) -> (r: String)
    requires
        bins >= 128 ==> 127 * cells + 5 <= usize::MAX,
    ensures
        r@ == spectrum_labels_spec(width as nat, cells as int, bins as int),
{
    let mut line = spaces_exec(width);
    if bins >= 128 {
        write_label_exec(&mut line, 0, cells, "0Hz");
        write_label_exec(&mut line, 32, cells, "2.5kHz");
        write_label_exec(&mut line, 64, cells, "5kHz");
        write_label_exec(&mut line, 96, cells, "7.5kHz");
        write_label_exec(&mut line, 127, cells, "10kHz");
    }
    string_of(&line)
}

/// The track panel's title: with more than one track, the position in the
/// playlist.
pub open spec fn track_info_title_spec(index: nat, len: nat) -> Seq<char> {
    if len > 1 {
        "Track Info ("@ + decimal(index + 1) + seq!['/'] + decimal(len) + seq![')']
    } else {
        "Track Info"@
    }
}

/// The track panel's title (see `track_info_title_spec`).
pub fn track_info_title(index: usize, len: usize) -> (r: String)
    requires
        index < usize::MAX,
    ensures
        r@ == track_info_title_spec(index as nat, len as nat),
{
    if len > 1 {
        let mut s = concat_chars(&chars_of("Track Info ("), &decimal_chars(index + 1));
        s.push('/');
        let mut s2 = concat_chars(&s, &decimal_chars(len));
        s2.push(')');
        string_of(&s2)
    } else {
        string_of(&chars_of("Track Info"))
    }
}

/// `path` with a leading `home` replaced by `marker` (`~` for `$HOME`).
pub open spec fn abbreviate_spec(path: Seq<char>, home: Seq<char>, marker: Seq<char>) -> Seq<char> {
    if has_prefix(path, home) {
        marker + path.skip(home.len() as int)
    } else {
        path
    }
}

/// Shortens `path` by replacing a leading `home` with `marker`.
pub fn abbreviate_home(path: &str, home: &str, marker: &str) -> (r: String)
    ensures
        r@ == abbreviate_spec(path@, home@, marker@),
{
    let p = chars_of(path);
    let h = chars_of(home);
    if starts_with_chars(&p, &h) {
        string_of(&concat_chars(&chars_of(marker), &slice_chars(&p, h.len(), p.len())))
    } else {
        string_of(&p)
    }
}

} // verus!
