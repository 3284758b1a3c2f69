//! Lyrics support: path normalization, song-name matching for sidecar `.lrc`
//! files, and the structure of LRC text (tags, metadata, lyric lines).
use vstd::prelude::*;
use crate::text::{
    all_digits, is_digit,
    chars_of, string_of, trim, trim_chars, has_prefix, starts_with_chars, slice_chars, lowercase,
    lowercase_chars, alphanumeric, is_alphanumeric, is_ws, is_whitespace, squash_ws,
    squash_whitespace, find_char, find_char_in, lemma_find_char, split_once, split_once_chars,
    parse_i64_spec, parse_i64_chars, trim_start, trim_start_chars, lemma_trim_start_len, lines_of,
    split_lines, views, chars_eq, split_all, split_all_chars, last_index_of, last_index_in,
    lemma_last_index_of, lemma_find_char_at, lemma_find_char_none, lemma_trim_keeps, single_spaced, lemma_squash_shape, lemma_squash_fixed,
};
use vstd::utf8::{encode_utf8, decode_utf8, valid_utf8, encode_scalar};
use crate::playlist::{file_name_of, extension_of, file_name, path_extension};

verus! {

/// The value of the hexadecimal digit byte `b`, if it is one.
pub open spec fn hex_value(b: u8) -> Option<int> {
    if 48 <= b <= 57 {
        Some(b - 48)
    } else if 97 <= b <= 102 {
        Some(b - 87)
    } else if 65 <= b <= 70 {
        Some(b - 55)
    } else {
        None
    }
}

/// The byte that `%` followed by the bytes `b1 b2` encodes: both must be
/// ASCII hexadecimal digits.
pub open spec fn escaped_byte(b1: u8, b2: u8) -> Option<int> {
    match (hex_value(b1), hex_value(b2)) {
        (Some(x), Some(y)) => Some(16 * x + y),
        _ => None,
    }
}

/// Percent-decoding of the bytes `b`: each `%` followed by two hexadecimal
/// digits becomes the byte they spell; every other byte, a `%` without two
/// such digits included, stays as it is.
pub open spec fn percent_decode(b: Seq<u8>) -> Seq<u8>
    decreases b.len(),
{
    if b.len() == 0 {
        seq![]
    } else if b[0] == 37 && b.len() > 2 && escaped_byte(b[1], b[2]) is Some {
        seq![escaped_byte(b[1], b[2])->0 as u8] + percent_decode(b.skip(3))
    } else {
        seq![b[0]] + percent_decode(b.skip(1))
    }
}

/// The path text before decoding: trimmed, with a leading `file://` removed.
pub open spec fn path_part(raw: Seq<char>) -> Seq<char> {
    let t = trim(raw);
    if has_prefix(t, "file://"@) {
        t.skip(7)
    } else {
        t
    }
}

/// The normalized form of a path string: the UTF-8 bytes of its path part
/// (see `path_part`) percent-decoded and read back as UTF-8; text that was
/// not escaped, non-ASCII text included, comes back as it was. When the
/// decoded bytes are not UTF-8, each byte becomes the character with that
/// code (U+0000 to U+00FF).
pub open spec fn normalize_spec(raw: Seq<char>) -> Seq<char> {
    let s = path_part(raw);
    let d = percent_decode(encode_utf8(s));
    if valid_utf8(d) {
        decode_utf8(d)
    } else {
        latin1(d)
    }
}

/// Each byte of `b` as the character with that code.
pub open spec fn latin1(b: Seq<u8>) -> Seq<char> {
    b.map_values(|x: u8| x as char)
}

fn latin1_chars(b: &Vec<u8>) -> (r: Vec<char>)
    ensures
        r@ == latin1(b@),
{
    let mut out: Vec<char> = Vec::new();
    for i in 0..b.len()
        invariant
            out@ == b@.take(i as int).map_values(|x: u8| x as char),
    {
        out.push(b[i] as char);
        assert(b@.take(i + 1).map_values(|x: u8| x as char) =~= b@.take(i as int).map_values(
            |x: u8| x as char,
        ).push(b[i as int] as char));
    }
    assert(b@.take(b.len() as int) == b@);
    out
}

fn hex_value_exec(b: u8) -> (r: Option<u8>)
    ensures
        match r {
            Some(v) => hex_value(b) == Some(v as int),
            None => hex_value(b) is None,
        },
{
    if 48 <= b && b <= 57 {
        Some(b - 48)
    } else if 97 <= b && b <= 102 {
        Some(b - 87)
    } else if 65 <= b && b <= 70 {
        Some(b - 55)
    } else {
        None
    }
}

fn escaped_byte_exec(b1: u8, b2: u8) -> (r: Option<u8>)
    ensures
        match r {
            Some(v) => escaped_byte(b1, b2) == Some(v as int),
            None => escaped_byte(b1, b2) is None,
        },
{
    match (hex_value_exec(b1), hex_value_exec(b2)) {
        (Some(x), Some(y)) => Some(16 * x + y),
        _ => None,
    }
}

/// `std::str::from_utf8`: the text the bytes `bytes` encode in UTF-8, or
/// `None` when they are not valid UTF-8. Claimed, as its documentation says:
/// it succeeds exactly on valid UTF-8, and the text is the one encoded.
#[verifier::external_body]
fn utf8_text(bytes: &Vec<u8>) -> (r: Option<String>)
    ensures
        match r {
            Some(t) => valid_utf8(bytes@) && t@ == decode_utf8(bytes@),
            None => !valid_utf8(bytes@),
        },
{
    match std::str::from_utf8(bytes.as_slice()) {
        Ok(t) => Some(String::from(t)),
        Err(_) => None,
    }
}

/// Percent-decodes the bytes `b` (see `percent_decode`).
pub fn percent_decode_bytes(b: &[u8]) -> (r: Vec<u8>)
    ensures
        r@ == percent_decode(b@),
{
    let ghost bs = b@;
    let mut out: Vec<u8> = Vec::new();
    let mut i: usize = 0;
    assert(bs.skip(0) == bs);
    while i < b.len()
        invariant
            i <= b.len(),
            bs == b@,
            percent_decode(bs) == out@ + percent_decode(bs.skip(i as int)),
        decreases b.len() - i,
    {
        let ghost rest = bs.skip(i as int);
        if b[i] == 37 && b.len() - i > 2 {
            assert(rest[0] == b[i as int] && rest[1] == b[i + 1] && rest[2] == b[i + 2]);
            match escaped_byte_exec(b[i + 1], b[i + 2]) {
                Some(v) => {
                    assert(rest.skip(3) == bs.skip(i + 3));
                    let ghost before = out@;
                    out.push(v);
                    assert(out@ + percent_decode(bs.skip(i + 3)) =~= before + percent_decode(rest));
                    i = i + 3;
                    continue ;
                },
                None => {},
            }
        }
        assert(rest[0] == b[i as int]);
        assert(rest.skip(1) == bs.skip(i + 1));
        let ghost before = out@;
        out.push(b[i]);
        assert(out@ + percent_decode(bs.skip(i + 1)) =~= before + percent_decode(rest));
        i = i + 1;
    }
    assert(bs.skip(i as int).len() == 0);
    assert(out@ + percent_decode(bs.skip(i as int)) =~= out@);
    out
}

/// Normalizes a path string by stripping URI schemas (like `file://`) and decoding URL-encoded characters.
pub fn normalize_path_str(raw: &str) -> (r: String)
    ensures
        r@ == normalize_spec(raw@),
{
    let t = trim_chars(&chars_of(raw));
    let prefix = chars_of("file://");
    proof {
        reveal_strlit("file://");
    }
    let s = if starts_with_chars(&t, &prefix) {
        slice_chars(&t, 7, t.len())
    } else {
        slice_chars(&t, 0, t.len())
    };
    assert(t@.subrange(0, t.len() as int) == t@);
    let st = string_of(&s);
    let d = percent_decode_bytes(st.as_str().as_bytes());
    match utf8_text(&d) {
        Some(text) => text,
        None => string_of(&latin1_chars(&d)),
    }
}

/// Text without `%` is not decoded: normalizing it only trims it and removes
/// a leading `file://`; every other character, non-ASCII ones included, comes
/// back as it was.
pub proof fn law_normalize_without_escapes(raw: Seq<char>)
    requires
        forall|i: int| 0 <= i < raw.len() ==> raw[i] != '%',
    ensures
        normalize_spec(raw) == path_part(raw),
{
    reveal_strlit("file://");
    let p = |c: char| c != '%';
    assert forall|i: int| 0 <= i < raw.len() implies p(#[trigger] raw[i]) by {}
    lemma_trim_keeps(raw, p);
    let t = trim(raw);
    let s = path_part(raw);
    assert forall|i: int| 0 <= i < s.len() implies s[i] != '%' by {
        if has_prefix(t, "file://"@) {
            assert(s[i] == t[i + 7]);
            assert(p(t[i + 7]));
        } else {
            assert(p(t[i]));
        }
    }
    lemma_encode_no_percent(s);
    lemma_percent_decode_no_escape(encode_utf8(s));
    vstd::utf8::encode_utf8_valid_utf8(s);
    vstd::utf8::encode_utf8_decode_utf8(s);
}

proof fn lemma_scalar_no_percent(c: char)
    requires
        c != '%',
    ensures
        forall|i: int| 0 <= i < encode_scalar(c as u32).len() ==> #[trigger] encode_scalar(c as u32)[i] != 37,
{
    let u = c as u32;
    if u == 37 {
        vstd::utf8::char_u32_cast(c, u);
        vstd::utf8::char_u32_cast('%', 37);
    }
    assert(u != 37);
    assert(u != 37 ==> (u & 0x7F) as u8 != 37 || u > 0x7f) by (bit_vector);
    assert(0xC0u8 | ((u >> 6) & 0x1F) as u8 != 37) by (bit_vector);
    assert(0xE0u8 | ((u >> 12) & 0x0F) as u8 != 37) by (bit_vector);
    assert(0xF0u8 | ((u >> 18) & 0x7) as u8 != 37) by (bit_vector);
    assert(0x80u8 | (u & 0x3F) as u8 != 37) by (bit_vector);
    assert(0x80u8 | ((u >> 6) & 0x3F) as u8 != 37) by (bit_vector);
    assert(0x80u8 | ((u >> 12) & 0x3F) as u8 != 37) by (bit_vector);
}

proof fn lemma_encode_no_percent(s: Seq<char>)
    requires
        forall|i: int| 0 <= i < s.len() ==> s[i] != '%',
    ensures
        forall|i: int| 0 <= i < encode_utf8(s).len() ==> encode_utf8(s)[i] != 37,
    decreases s.len(),
{
    if s.len() > 0 {
        lemma_scalar_no_percent(s[0]);
        assert forall|i: int| 0 <= i < s.drop_first().len() implies s.drop_first()[i] != '%' by {
            assert(s.drop_first()[i] == s[i + 1]);
        }
        lemma_encode_no_percent(s.drop_first());
        let a = encode_scalar(s[0] as u32);
        let b = encode_utf8(s.drop_first());
        assert forall|i: int| 0 <= i < encode_utf8(s).len() implies encode_utf8(s)[i] != 37 by {
            if i < a.len() {
                assert(encode_utf8(s)[i] == a[i]);
            } else {
                assert(encode_utf8(s)[i] == b[i - a.len()]);
            }
        }
    }
}

proof fn lemma_percent_decode_no_escape(b: Seq<u8>)
    requires
        forall|i: int| 0 <= i < b.len() ==> b[i] != 37,
    ensures
        percent_decode(b) == b,
    decreases b.len(),
{
    if b.len() > 0 {
        assert forall|i: int| 0 <= i < b.skip(1).len() implies b.skip(1)[i] != 37 by {
            assert(b.skip(1)[i] == b[i + 1]);
        }
        lemma_percent_decode_no_escape(b.skip(1));
        assert(seq![b[0]] + b.skip(1) =~= b);
    }
}

/// `c`, or a space when it is `_`, `-` or `.`.
pub open spec fn separator_to_space(c: char) -> char {
    if c == '_' || c == '-' || c == '.' {
        ' '
    } else {
        c
    }
}

/// `s` with every non-overlapping occurrence of `pat` removed, from left to
/// right (`str::replace(pat, "")`).
pub open spec fn remove_all(s: Seq<char>, pat: Seq<char>) -> Seq<char>
    decreases s.len(),
{
    if s.len() == 0 {
        s
    } else if pat.len() > 0 && has_prefix(s, pat) {
        remove_all(s.skip(pat.len() as int), pat)
    } else {
        seq![s[0]] + remove_all(s.drop_first(), pat)
    }
}

/// The markers that are dropped from song names before they are compared.
pub open spec fn stem_markers() -> Seq<Seq<char>> {
    seq![
        "(instrumental)"@, "(vocals)"@, "(karaoke)"@, "(official)"@, "[flac]"@, "[mp3]"@,
        "(audio)"@, "(lyrics)"@,
    ]
}

/// `s` with the first `n` markers removed, in order.
pub open spec fn remove_markers(s: Seq<char>, n: int) -> Seq<char>
    decreases n,
{
    if n <= 0 {
        s
    } else {
        remove_all(remove_markers(s, n - 1), stem_markers()[n - 1])
    }
}

/// The letters, digits and whitespace of `s`.
pub open spec fn word_chars(s: Seq<char>) -> Seq<char>
    decreases s.len(),
{
    if s.len() == 0 {
        s
    } else if alphanumeric(s.last()) || is_ws(s.last()) {
        word_chars(s.drop_last()).push(s.last())
    } else {
        word_chars(s.drop_last())
    }
}

/// The comparable form of a song name: lower case, `_ - .` made spaces, the
/// markers removed, only letters, digits and whitespace kept, and the words
/// joined by single spaces.
pub open spec fn clean_stem_spec(stem: Seq<char>) -> Seq<char> {
    clean_lowered_spec(lowercase(stem))
}

/// The comparable form of a song name already in lower case: `_ - .` made
/// spaces, the markers removed, only letters, digits and whitespace kept, and
/// the words joined by single spaces.
pub open spec fn clean_lowered_spec(low: Seq<char>) -> Seq<char> {
    squash_ws(word_chars(remove_markers(low.map_values(|c: char| separator_to_space(c)), 8)))
}

/// The comparable form of a song name is single-spaced words (trimmed, no
/// whitespace but single spaces) of letters and digits only.
pub proof fn law_clean_stem_single_spaced(stem: Seq<char>)
    ensures
        single_spaced(clean_stem_spec(stem)),
        forall|i: int| 0 <= i < clean_stem_spec(stem).len() ==> #[trigger] clean_stem_spec(stem)[i] == ' '
            || alphanumeric(clean_stem_spec(stem)[i]),
{
    let low = lowercase(stem).map_values(|c: char| separator_to_space(c));
    let w = word_chars(remove_markers(low, 8));
    lemma_word_chars_class(remove_markers(low, 8));
    let p = |c: char| alphanumeric(c);
    assert forall|i: int| 0 <= i < w.len() implies is_ws(#[trigger] w[i]) || p(w[i]) by {}
    lemma_squash_shape(w, p);
}

proof fn lemma_word_chars_class(s: Seq<char>)
    ensures
        forall|i: int| 0 <= i < word_chars(s).len() ==> alphanumeric(#[trigger] word_chars(s)[i]) || is_ws(
            word_chars(s)[i],
        ),
    decreases s.len(),
{
    if s.len() > 0 {
        lemma_word_chars_class(s.drop_last());
        let prev = word_chars(s.drop_last());
        if alphanumeric(s.last()) || is_ws(s.last()) {
            assert(word_chars(s) == prev.push(s.last()));
            assert forall|i: int| 0 <= i < word_chars(s).len() implies alphanumeric(#[trigger] word_chars(s)[i])
                || is_ws(word_chars(s)[i]) by {
                if i < prev.len() {
                    assert(word_chars(s)[i] == prev[i]);
                }
            }
        } else {
            assert(word_chars(s) == prev);
        }
    }
}

/// Cleaning is idempotent on lower-case text: cleaning a cleaned name again
/// changes nothing, as long as `(` and `[` are not alphanumeric (as for every
/// ASCII punctuation character, see `is_alphanumeric`). The whole cleaning of
/// a song name is idempotent too wherever lower-casing leaves its cleaned
/// form as it is.
pub proof fn law_clean_idempotent(low: Seq<char>, stem: Seq<char>)
    ensures
        !alphanumeric('(') && !alphanumeric('[') ==> clean_lowered_spec(clean_lowered_spec(low))
            == clean_lowered_spec(low),
        !alphanumeric('(') && !alphanumeric('[') && lowercase(clean_stem_spec(stem)) == clean_stem_spec(
            stem,
        ) ==> clean_stem_spec(clean_stem_spec(stem)) == clean_stem_spec(stem),
{
    if !alphanumeric('(') && !alphanumeric('[') {
        lemma_clean_lowered_fixed(low);
        lemma_clean_lowered_fixed(lowercase(stem));
    }
}

/// What cleaning keeps: letters and digits other than the separators.
pub open spec fn clean_char(c: char) -> bool {
    alphanumeric(c) && c != '_' && c != '-' && c != '.'
}

proof fn lemma_clean_lowered_fixed(low: Seq<char>)
    requires
        !alphanumeric('('),
        !alphanumeric('['),
    ensures
        clean_lowered_spec(clean_lowered_spec(low)) == clean_lowered_spec(low),
{
    let m = low.map_values(|c: char| separator_to_space(c));
    let p = |c: char| c != '_' && c != '-' && c != '.';
    assert forall|i: int| 0 <= i < m.len() implies p(#[trigger] m[i]) by {}
    lemma_remove_markers_keeps(m, 8, p);
    let r = remove_markers(m, 8);
    lemma_word_chars_keeps(r, p);
    let w = word_chars(r);
    lemma_word_chars_class(r);
    assert forall|i: int| 0 <= i < w.len() implies is_ws(#[trigger] w[i]) || clean_char(w[i]) by {
        assert(p(w[i]));
    }
    let cc = |c: char| clean_char(c);
    assert forall|i: int| 0 <= i < w.len() implies is_ws(#[trigger] w[i]) || cc(w[i]) by {}
    lemma_squash_shape(w, cc);
    let y = clean_lowered_spec(low);
    assert(y == squash_ws(w));
    // y is made of spaces and clean characters, single-spaced
    assert(y.map_values(|c: char| separator_to_space(c)) =~= y) by {
        assert forall|i: int| 0 <= i < y.len() implies separator_to_space(y[i]) == y[i] by {
            assert(y[i] == ' ' || cc(y[i]));
        }
    }
    assert forall|i: int| 0 <= i < y.len() implies y[i] != '(' && y[i] != '[' by {
        assert(y[i] == ' ' || cc(y[i]));
    }
    lemma_remove_markers_fixed(y, 8);
    lemma_word_chars_fixed(y);
    lemma_squash_fixed(y);
}

proof fn lemma_remove_all_keeps(s: Seq<char>, pat: Seq<char>, p: spec_fn(char) -> bool)
    requires
        forall|i: int| 0 <= i < s.len() ==> p(#[trigger] s[i]),
    ensures
        forall|i: int| 0 <= i < remove_all(s, pat).len() ==> p(#[trigger] remove_all(s, pat)[i]),
    decreases s.len(),
{
    if s.len() > 0 {
        if pat.len() > 0 && has_prefix(s, pat) {
            assert forall|i: int| 0 <= i < s.skip(pat.len() as int).len() implies p(
                #[trigger] s.skip(pat.len() as int)[i],
            ) by {
                assert(s.skip(pat.len() as int)[i] == s[i + pat.len()]);
            }
            lemma_remove_all_keeps(s.skip(pat.len() as int), pat, p);
            assert(remove_all(s, pat) == remove_all(s.skip(pat.len() as int), pat));
        } else {
            let t = s.drop_first();
            assert forall|i: int| 0 <= i < t.len() implies p(#[trigger] t[i]) by {
                assert(t[i] == s[i + 1]);
            }
            lemma_remove_all_keeps(t, pat, p);
            let r = remove_all(s, pat);
            let rt = remove_all(t, pat);
            assert(r == seq![s[0]] + rt);
            assert forall|i: int| 0 <= i < r.len() implies p(#[trigger] r[i]) by {
                if i > 0 {
                    assert(r[i] == rt[i - 1]);
                }
            }
        }
    }
}

proof fn lemma_remove_markers_keeps(s: Seq<char>, n: int, p: spec_fn(char) -> bool)
    requires
        forall|i: int| 0 <= i < s.len() ==> p(#[trigger] s[i]),
    ensures
        forall|i: int| 0 <= i < remove_markers(s, n).len() ==> p(#[trigger] remove_markers(s, n)[i]),
    decreases n,
{
    if n > 0 {
        lemma_remove_markers_keeps(s, n - 1, p);
        lemma_remove_all_keeps(remove_markers(s, n - 1), stem_markers()[n - 1], p);
    }
}

proof fn lemma_word_chars_keeps(s: Seq<char>, p: spec_fn(char) -> bool)
    requires
        forall|i: int| 0 <= i < s.len() ==> p(#[trigger] s[i]),
    ensures
        forall|i: int| 0 <= i < word_chars(s).len() ==> p(#[trigger] word_chars(s)[i]),
    decreases s.len(),
{
    if s.len() > 0 {
        let init = s.drop_last();
        assert forall|i: int| 0 <= i < init.len() implies p(#[trigger] init[i]) by {
            assert(init[i] == s[i]);
        }
        lemma_word_chars_keeps(init, p);
        let prev = word_chars(init);
        if alphanumeric(s.last()) || is_ws(s.last()) {
            assert(word_chars(s) == prev.push(s.last()));
            assert forall|i: int| 0 <= i < word_chars(s).len() implies p(#[trigger] word_chars(s)[i]) by {
                if i < prev.len() {
                    assert(word_chars(s)[i] == prev[i]);
                }
            }
        } else {
            assert(word_chars(s) == prev);
        }
    }
}

proof fn lemma_remove_all_fixed(s: Seq<char>, pat: Seq<char>)
    requires
        pat.len() > 0,
        forall|i: int| 0 <= i < s.len() ==> s[i] != pat[0],
    ensures
        remove_all(s, pat) == s,
    decreases s.len(),
{
    if s.len() > 0 {
        assert(!has_prefix(s, pat)) by {
            if has_prefix(s, pat) {
                assert(s[0] == pat[0]);
            }
        }
        let t = s.drop_first();
        assert forall|i: int| 0 <= i < t.len() implies t[i] != pat[0] by {
            assert(t[i] == s[i + 1]);
        }
        lemma_remove_all_fixed(t, pat);
        assert(seq![s[0]] + t =~= s);
    }
}

proof fn lemma_remove_markers_fixed(s: Seq<char>, n: int)
    requires
        0 <= n <= 8,
        forall|i: int| 0 <= i < s.len() ==> s[i] != '(' && s[i] != '[',
    ensures
        remove_markers(s, n) == s,
    decreases n,
{
    if n > 0 {
        lemma_remove_markers_fixed(s, n - 1);
        reveal_strlit("(instrumental)");
        reveal_strlit("(vocals)");
        reveal_strlit("(karaoke)");
        reveal_strlit("(official)");
        reveal_strlit("[flac]");
        reveal_strlit("[mp3]");
        reveal_strlit("(audio)");
        reveal_strlit("(lyrics)");
        let pat = stem_markers()[n - 1];
        assert(pat.len() > 0 && (pat[0] == '(' || pat[0] == '['));
        lemma_remove_all_fixed(s, pat);
    }
}

proof fn lemma_word_chars_fixed(s: Seq<char>)
    requires
        forall|i: int| 0 <= i < s.len() ==> alphanumeric(#[trigger] s[i]) || is_ws(s[i]),
    ensures
        word_chars(s) == s,
    decreases s.len(),
{
    if s.len() > 0 {
        let init = s.drop_last();
        assert forall|i: int| 0 <= i < init.len() implies alphanumeric(#[trigger] init[i]) || is_ws(init[i]) by {
            assert(init[i] == s[i]);
        }
        lemma_word_chars_fixed(init);
        assert(alphanumeric(s[s.len() - 1]) || is_ws(s[s.len() - 1]));
        assert(init.push(s.last()) =~= s);
    }
}

fn remove_all_chars(s: &Vec<char>, pat: &Vec<char>) -> (r: Vec<char>)
    requires
        pat.len() > 0,
    ensures
        r@ == remove_all(s@, pat@),
{
    let mut out: Vec<char> = Vec::new();
    let mut i: usize = 0;
    assert(s@.skip(0) == s@);
    while i < s.len()
        invariant
            i <= s.len(),
            pat.len() > 0,
            remove_all(s@, pat@) == out@ + remove_all(s@.skip(i as int), pat@),
        decreases s.len() - i,
    {
        let ghost rest = s@.skip(i as int);
        let mut m = s.len() - i >= pat.len();
        let mut j: usize = 0;
        while m && j < pat.len()
            invariant
                i <= s.len(),
                m ==> s.len() - i >= pat.len(),
                j <= pat.len(),
                m ==> forall|k: int| 0 <= k < j ==> s@[i + k] == pat@[k],
                !m ==> !has_prefix(rest, pat@),
                rest == s@.skip(i as int),
            decreases pat.len() - j,
        {
            if s[i + j] != pat[j] {
                assert(rest.take(pat.len() as int)[j as int] == s@[i + j]);
                m = false;
            }
            j = j + 1;
        }
        if m {
            assert(rest.take(pat.len() as int) =~= pat@);
            assert(rest.skip(pat.len() as int) == s@.skip(i + pat.len()));
            i = i + pat.len();
        } else {
            assert(rest[0] == s@[i as int]);
            assert(rest.drop_first() == s@.skip(i + 1));
            out.push(s[i]);
            i = i + 1;
        }
    }
    assert(s@.skip(i as int).len() == 0);
    assert(out@ + remove_all(s@.skip(i as int), pat@) == out@);
    out
}

fn word_chars_exec(s: &Vec<char>) -> (r: Vec<char>)
    ensures
        r@ == word_chars(s@),
{
    let mut out: Vec<char> = Vec::new();
    for i in 0..s.len()
        invariant
            out@ == word_chars(s@.take(i as int)),
    {
        assert(s@.take(i + 1).drop_last() == s@.take(i as int));
        assert(s@.take(i + 1).last() == s@[i as int]);
        if is_alphanumeric(s[i]) || is_whitespace(s[i]) {
            out.push(s[i]);
        }
    }
    assert(s@.take(s.len() as int) == s@);
    out
}

/// The comparable form of a song name (see `clean_stem_spec`).
pub fn clean_song_stem(stem: &str) -> (r: String)
    ensures
        r@ == clean_stem_spec(stem@),
{
    let low = string_of(&lowercase_chars(&chars_of(stem)));
    clean_lowered_stem(low.as_str())
}

/// The comparable form of a song name already in lower case (see
/// `clean_lowered_spec`).
pub fn clean_lowered_stem(lowered: &str) -> (r: String)
    ensures
        r@ == clean_lowered_spec(lowered@),
{
    let low = chars_of(lowered);
    let mut mapped: Vec<char> = Vec::new();
    for i in 0..low.len()
        invariant
            mapped@ == low@.take(i as int).map_values(|c: char| separator_to_space(c)),
    {
        let c = low[i];
        let d = if c == '_' || c == '-' || c == '.' {
            ' '
        } else {
            c
        };
        mapped.push(d);
        assert(low@.take(i + 1).map_values(|c: char| separator_to_space(c)) =~= low@.take(
            i as int,
        ).map_values(|c: char| separator_to_space(c)).push(d));
    }
    assert(low@.take(low.len() as int) == low@);
    let markers: Vec<&'static str> = vec![
        "(instrumental)", "(vocals)", "(karaoke)", "(official)", "[flac]", "[mp3]", "(audio)",
        "(lyrics)",
    ];
    assert(markers@.map_values(|m: &'static str| m@) =~= stem_markers());
    let mut cur = mapped;
    for k in 0..markers.len()
        invariant
            markers@.map_values(|m: &'static str| m@) == stem_markers(),
            markers.len() == 8,
            cur@ == remove_markers(
                low@.map_values(|c: char| separator_to_space(c)),
                k as int,
            ),
    {
        let pat = chars_of(markers[k]);
        assert(pat@ == stem_markers()[k as int]);
        proof {
            reveal_strlit("(instrumental)");
            reveal_strlit("(vocals)");
            reveal_strlit("(karaoke)");
            reveal_strlit("(official)");
            reveal_strlit("[flac]");
            reveal_strlit("[mp3]");
            reveal_strlit("(audio)");
            reveal_strlit("(lyrics)");
        }
        cur = remove_all_chars(&cur, &pat);
    }
    let kept = word_chars_exec(&cur);
    string_of(&squash_whitespace(&kept))
}

/// Whether `t`, the text between `<` and `>`, is an inline time tag:
/// minutes and seconds (`mm:ss`), optionally with a fraction (`mm:ss.xx`),
/// each part one or more ASCII digits.
pub open spec fn is_time_tag(t: Seq<char>) -> bool {
    let k = find_char(t, ':');
    let rest = t.skip(k + 1);
    let d = find_char(rest, '.');
    &&& k > 0
    &&& all_digits(t.take(k))
    &&& if d < 0 {
        rest.len() > 0 && all_digits(rest)
    } else {
        d > 0 && all_digits(rest.take(d)) && rest.len() > d + 1 && all_digits(rest.skip(d + 1))
    }
}

/// `s` without its inline time tags: each `<...>` whose content is a time
/// tag (see `is_time_tag`) is dropped; any other closed `<...>` is kept as it
/// is; a `<` with no `>` after it is kept, with the rest of the text.
pub open spec fn strip_tags(s: Seq<char>) -> Seq<char>
    decreases s.len(),
{
    if s.len() == 0 {
        s
    } else if s[0] == '<' {
        let k = find_char(s.drop_first(), '>');
        if k >= 0 {
            proof {
                lemma_find_char(s.drop_first(), '>');
            }
            if is_time_tag(s.subrange(1, k + 1)) {
                strip_tags(s.skip(k + 2))
            } else {
                s.take(k + 2) + strip_tags(s.skip(k + 2))
            }
        } else {
            s
        }
    } else {
        seq![s[0]] + strip_tags(s.drop_first())
    }
}

fn digits_only(v: &Vec<char>) -> (r: bool)
    ensures
        r == all_digits(v@),
{
    let mut i: usize = 0;
    while i < v.len()
        invariant
            i <= v.len(),
            forall|j: int| 0 <= j < i ==> is_digit(#[trigger] v@[j]),
        decreases v.len() - i,
    {
        let u = v[i] as u32;
        if !(48 <= u && u <= 57) {
            assert(!is_digit(v@[i as int]));
            return false;
        }
        i = i + 1;
    }
    true
}

fn time_tag_exec(t: &Vec<char>) -> (r: bool)
    ensures
        r == is_time_tag(t@),
{
    match find_char_in(t, ':') {
        None => false,
        Some(k) => {
            proof {
                lemma_find_char(t@, ':');
            }
            assert(k < t@.len());
            assert(k < t.len());
            if k == 0 || !digits_only(&slice_chars(t, 0, k)) {
                return false;
            }
            let rest = slice_chars(t, k + 1, t.len());
            assert(rest@ == t@.skip(k + 1));
            match find_char_in(&rest, '.') {
                None => rest.len() > 0 && digits_only(&rest),
                Some(d) => {
                    proof {
                        lemma_find_char(rest@, '.');
                    }
                    d > 0 && digits_only(&slice_chars(&rest, 0, d)) && rest.len() > d + 1
                        && digits_only(&slice_chars(&rest, d + 1, rest.len()))
                },
            }
        },
    }
}

/// Lyric text without its inline timing tags, its words joined by single spaces.
pub open spec fn strip_inline_spec(text: Seq<char>) -> Seq<char> {
    squash_ws(strip_tags(text))
}

fn strip_tags_exec(v: &Vec<char>) -> (r: Vec<char>)
    ensures
        r@ == strip_tags(v@),
{
    let mut out: Vec<char> = Vec::new();
    let mut i: usize = 0;
    assert(v@.skip(0) == v@);
    while i < v.len()
        invariant
            i <= v.len(),
            strip_tags(v@) == out@ + strip_tags(v@.skip(i as int)),
        decreases v.len() - i,
    {
        let ghost rest = v@.skip(i as int);
        assert(rest[0] == v@[i as int]);
        if v[i] == '<' {
            let tail = slice_chars(v, i + 1, v.len());
            assert(tail@ == rest.drop_first());
            match find_char_in(&tail, '>') {
                Some(k) => {
                    proof {
                        lemma_find_char(tail@, '>');
                    }
                    assert(rest.skip(k + 2) == v@.skip(i + k + 2));
                    let inner = slice_chars(v, i + 1, i + 1 + k);
                    assert(inner@ == rest.subrange(1, k + 1));
                    if !time_tag_exec(&inner) {
                        let ghost out0 = out@;
                        let mut j = i;
                        while j < i + k + 2
                            invariant
                                i <= j <= i + k + 2,
                                i + k + 2 <= v.len(),
                                out@ == out0 + v@.subrange(i as int, j as int),
                            decreases i + k + 2 - j,
                        {
                            out.push(v[j]);
                            assert(v@.subrange(i as int, j + 1) == v@.subrange(i as int, j as int).push(
                                v@[j as int],
                            ));
                            j = j + 1;
                        }
                        assert(v@.subrange(i as int, (i + k + 2) as int) == rest.take(k + 2));
                        assert(out@ + strip_tags(v@.skip(i + k + 2)) =~= out0 + strip_tags(rest));
                    }
                    i = i + k + 2;
                },
                None => {
                    let ghost out0 = out@;
                    assert(strip_tags(rest) == rest);
                    let mut j = i;
                    while j < v.len()
                        invariant
                            i <= j <= v.len(),
                            out@ == out0 + v@.subrange(i as int, j as int),
                        decreases v.len() - j,
                    {
                        out.push(v[j]);
                        assert(v@.subrange(i as int, j + 1) == v@.subrange(i as int, j as int).push(v@[j as int]));
                        j = j + 1;
                    }
                    assert(v@.subrange(i as int, v.len() as int) == rest);
                    return out;
                },
            }
        } else {
            assert(rest.drop_first() == v@.skip(i + 1));
            out.push(v[i]);
            i = i + 1;
        }
    }
    assert(v@.skip(i as int).len() == 0);
    assert(out@ + strip_tags(v@.skip(i as int)) == out@);
    out
}

/// The text of a lyric line comes out as single-spaced words (trimmed, no
/// whitespace but single spaces); text without `<` only has its whitespace
/// squashed.
pub proof fn law_stripped_text_single_spaced(text: Seq<char>)
    ensures
        single_spaced(strip_inline_spec(text)),
        (forall|i: int| 0 <= i < text.len() ==> text[i] != '<') ==> strip_inline_spec(text) == squash_ws(
            text,
        ),
{
    let t = strip_tags(text);
    let p = |c: char| true;
    assert forall|i: int| 0 <= i < t.len() implies is_ws(#[trigger] t[i]) || p(t[i]) by {}
    lemma_squash_shape(t, p);
    if forall|i: int| 0 <= i < text.len() ==> text[i] != '<' {
        lemma_strip_tags_plain(text);
    }
}

proof fn lemma_strip_tags_plain(s: Seq<char>)
    requires
        forall|i: int| 0 <= i < s.len() ==> s[i] != '<',
    ensures
        strip_tags(s) == s,
    decreases s.len(),
{
    if s.len() > 0 {
        assert(s[0] != '<');
        assert forall|i: int| 0 <= i < s.drop_first().len() implies s.drop_first()[i] != '<' by {
            assert(s.drop_first()[i] == s[i + 1]);
        }
        lemma_strip_tags_plain(s.drop_first());
        assert(seq![s[0]] + s.drop_first() =~= s);
    }
}

/// Strips inline enhanced LRC tags like `<00:12.34>` or `<12:34>` from text and normalizes
/// spaces; other `<...>` text is kept.
pub fn strip_inline_tags(text: &str) -> (r: String)
    ensures
        r@ == strip_inline_spec(text@),
{
    string_of(&squash_whitespace(&strip_tags_exec(&chars_of(text))))
}


/// `c`'s code with ASCII upper-case letters mapped to lower case.
pub open spec fn ascii_fold(c: char) -> u32 {
    let u = c as u32;
    if 65 <= u <= 90 {
        (u + 32) as u32
    } else {
        u
    }
}

/// Whether `a` and `b` are equal up to ASCII letter case (`str::eq_ignore_ascii_case`).
pub open spec fn eq_ignore_ascii_case_spec(a: Seq<char>, b: Seq<char>) -> bool {
    a.len() == b.len() && forall|i: int| 0 <= i < a.len() ==> ascii_fold(a[i]) == ascii_fold(b[i])
}

fn eq_ignore_ascii_case(a: &Vec<char>, b: &Vec<char>) -> (r: bool)
    ensures
        r == eq_ignore_ascii_case_spec(a@, b@),
{
    if a.len() != b.len() {
        return false;
    }
    let mut i: usize = 0;
    while i < a.len()
        invariant
            a.len() == b.len(),
            i <= a.len(),
            forall|j: int| 0 <= j < i ==> ascii_fold(a@[j]) == ascii_fold(b@[j]),
        decreases a.len() - i,
    {
        let x = a[i] as u32;
        let y = b[i] as u32;
        let fx = if 65 <= x && x <= 90 {
            x + 32
        } else {
            x
        };
        let fy = if 65 <= y && y <= 90 {
            y + 32
        } else {
            y
        };
        if fx != fy {
            return false;
        }
        i = i + 1;
    }
    true
}

/// Whether a lyrics file named `entry_stem` belongs to the song named
/// `song_stem`: the names are equal up to ASCII case, or their comparable
/// forms (see `clean_stem_spec`) are equal and not empty, or both are non-empty
/// and one begins with the other.
pub open spec fn stems_match_spec(song_stem: Seq<char>, entry_stem: Seq<char>) -> bool {
    let a = clean_stem_spec(song_stem);
    let b = clean_stem_spec(entry_stem);
    ||| eq_ignore_ascii_case_spec(entry_stem, song_stem)
    ||| a.len() > 0 && b == a
    ||| a.len() > 0 && b.len() > 0 && (has_prefix(a, b) || has_prefix(b, a))
}

/// Matching song and lyrics names is symmetric, and a song name whose
/// comparable form begins with the lyrics name's (both non-empty) matches,
/// and the other way round: "Artist - Title (Remastered)" goes with
/// "Artist - Title" and "Artist - Title" with "Artist - Title (Live)".
pub proof fn law_stems_match_symmetric(song: Seq<char>, entry: Seq<char>)
    ensures
        stems_match_spec(song, entry) == stems_match_spec(entry, song),
        clean_stem_spec(song).len() > 0 && clean_stem_spec(entry).len() > 0 && has_prefix(
            clean_stem_spec(song),
            clean_stem_spec(entry),
        ) ==> stems_match_spec(song, entry),
        clean_stem_spec(song).len() > 0 && clean_stem_spec(entry).len() > 0 && has_prefix(
            clean_stem_spec(entry),
            clean_stem_spec(song),
        ) ==> stems_match_spec(song, entry),
        clean_stem_spec(song).len() > 0 && clean_stem_spec(song) == clean_stem_spec(entry)
            ==> stems_match_spec(song, entry),
{
    assert(eq_ignore_ascii_case_spec(entry, song) == eq_ignore_ascii_case_spec(song, entry));
}

/// Tests whether the lyrics file named `entry_stem` (without extension) belongs
/// to the song file named `song_stem` (without extension).
pub fn sidecar_stem_matches(song_stem: &str, entry_stem: &str) -> (r: bool)
    ensures
        r == stems_match_spec(song_stem@, entry_stem@),
{
    let raw_song = chars_of(song_stem);
    let raw_entry = chars_of(entry_stem);
    let a = chars_of(clean_song_stem(song_stem).as_str());
    let b = chars_of(clean_song_stem(entry_stem).as_str());
    eq_ignore_ascii_case(&raw_entry, &raw_song) || (a.len() > 0 && crate::text::chars_eq(&b, &a))
        || (a.len() > 0 && b.len() > 0 && (starts_with_chars(&a, &b) || starts_with_chars(&b, &a)))
}


/// The stem of a Unix path, as `Path::file_stem` finds it: the file name up
/// to its last `.`, or the whole name when it has no `.` but a leading one.
pub open spec fn file_stem_of(p: Seq<char>) -> Option<Seq<char>> {
    match file_name_of(p) {
        None => None,
        Some(name) => {
            let k = last_index_of(name, '.');
            if k <= 0 {
                Some(name)
            } else {
                Some(name.take(k))
            }
        },
    }
}

/// Whether the file at `entry_path`, found while looking for the lyrics of
/// the song at `song_path`, is them: the entry's extension is `lrc` in any
/// ASCII letter case, and the stems of the two paths match (see
/// `stems_match_spec`). A song path without a stem has no such entry.
pub open spec fn lrc_entry_matches_spec(song_path: Seq<char>, entry_path: Seq<char>) -> bool {
    match (file_stem_of(song_path), extension_of(entry_path), file_stem_of(entry_path)) {
        (Some(song_stem), Some(ext), Some(entry_stem)) => eq_ignore_ascii_case_spec(ext, "lrc"@)
            && stems_match_spec(song_stem, entry_stem),
        _ => false,
    }
}

fn path_file_stem(p: &Vec<char>) -> (r: Option<Vec<char>>)
    ensures
        match r {
            Some(s) => file_stem_of(p@) == Some(s@),
            None => file_stem_of(p@) is None,
        },
{
    match file_name(p) {
        None => None,
        Some(name) => {
            let dot = last_index_in(&name, '.', name.len());
            assert(name@.take(name.len() as int) == name@);
            proof {
                lemma_last_index_of(name@, '.');
            }
            match dot {
                Some(k) => {
                    if k == 0 {
                        Some(name)
                    } else {
                        Some(slice_chars(&name, 0, k))
                    }
                },
                None => Some(name),
            }
        },
    }
}

/// Tests whether the file at `entry_path` holds the lyrics of the song at
/// `song_path` (see `lrc_entry_matches_spec`).
pub fn lrc_entry_matches(song_path: &str, entry_path: &str) -> (r: bool)
    ensures
        r == lrc_entry_matches_spec(song_path@, entry_path@),
{
    let song_stem = match path_file_stem(&chars_of(song_path)) {
        None => {
            return false;
        },
        Some(s) => s,
    };
    let entry = chars_of(entry_path);
    let ext = match path_extension(&entry) {
        None => {
            return false;
        },
        Some(e) => e,
    };
    let entry_stem = match path_file_stem(&entry) {
        None => {
            return false;
        },
        Some(s) => s,
    };
    proof {
        reveal_strlit("lrc");
    }
    eq_ignore_ascii_case(&ext, &chars_of("lrc")) && sidecar_stem_matches(
        string_of(&song_stem).as_str(),
        string_of(&entry_stem).as_str(),
    )
}


/// The metadata of an LRC text: title, artist, album and timing offset.
pub struct LrcMeta {
    pub title: Option<Seq<char>>,
    pub artist: Option<Seq<char>>,
    pub album: Option<Seq<char>>,
    pub offset_ms: i64,
}

/// Metadata with the given parts.
pub open spec fn meta_of(
    title: Option<Seq<char>>,
    artist: Option<Seq<char>>,
    album: Option<Seq<char>>,
    offset_ms: i64,
) -> LrcMeta {
    LrcMeta { title, artist, album, offset_ms }
}

/// What one bracketed tag (its trimmed content) does: `ti`, `ar`, `al` (keys
/// in any letter case) set the title, artist and album to the trimmed value;
/// `offset` sets the offset when its value is an integer; any other tag is a
/// candidate time stamp (the first component says so).
pub open spec fn apply_tag(tag: Seq<char>, m: LrcMeta) -> (bool, LrcMeta) {
    match split_once(tag, ':') {
        Some((k, v)) => apply_keyed_tag(lowercase(trim(k)), trim(v), m),
        None => (true, m),
    }
}

/// What a tag with the key `key` (trimmed, in lower case) and the trimmed
/// value `val` does (see `apply_tag`).
pub open spec fn apply_keyed_tag(key: Seq<char>, val: Seq<char>, m: LrcMeta) -> (bool, LrcMeta) {
    if key == "ti"@ {
        (false, meta_of(Some(val), m.artist, m.album, m.offset_ms))
    } else if key == "ar"@ {
        (false, meta_of(m.title, Some(val), m.album, m.offset_ms))
    } else if key == "al"@ {
        (false, meta_of(m.title, m.artist, Some(val), m.offset_ms))
    } else if key == "offset"@ {
        (
            false,
            match parse_i64_spec(val) {
                Some(o) => meta_of(m.title, m.artist, m.album, o),
                None => m,
            },
        )
    } else {
        (true, m)
    }
}

/// The leading `[...]` tags of a trimmed line: the candidate time stamps
/// among them, the metadata after them, and the text that follows them.
/// A `[` with no `]` after it ends the tags.
pub open spec fn scan_tags(rem: Seq<char>, m: LrcMeta) -> (Seq<Seq<char>>, LrcMeta, Seq<char>)
    decreases rem.len(),
{
    if rem.len() > 0 && rem[0] == '[' && find_char(rem, ']') >= 0 {
        let k = find_char(rem, ']');
        let tag = trim(rem.subrange(1, k));
        let step = apply_tag(tag, m);
        let next = trim_start(rem.skip(k + 1));
        proof {
            lemma_find_char(rem, ']');
            lemma_trim_start_len(rem.skip(k + 1));
        }
        let r = scan_tags(next, step.1);
        (if step.0 {
            seq![tag] + r.0
        } else {
            r.0
        }, r.1, r.2)
    } else {
        (seq![], m, rem)
    }
}

/// What one raw line contributes: one (time tag, text) entry per candidate
/// time stamp, all with the line's text stripped of inline tags; and the
/// metadata after it. Blank lines contribute nothing.
pub open spec fn line_entries(raw: Seq<char>, m: LrcMeta) -> (Seq<(Seq<char>, Seq<char>)>, LrcMeta) {
    let line = trim(raw);
    if line.len() == 0 {
        (seq![], m)
    } else {
        let r = scan_tags(line, m);
        let text = strip_inline_spec(r.2);
        (r.0.map_values(|t: Seq<char>| (t, text)), r.1)
    }
}

/// No metadata yet: no title, artist or album, offset 0.
pub open spec fn empty_meta() -> LrcMeta {
    meta_of(None, None, None, 0)
}

/// The entries and metadata of the lines `ls`, in order.
pub open spec fn lrc_fold(ls: Seq<Seq<char>>) -> (Seq<(Seq<char>, Seq<char>)>, LrcMeta)
    decreases ls.len(),
{
    if ls.len() == 0 {
        (seq![], empty_meta())
    } else {
        let p = lrc_fold(ls.drop_last());
        let q = line_entries(ls.last(), p.1);
        (p.0 + q.0, q.1)
    }
}

/// `s` without its leading byte-order marks.
pub open spec fn strip_bom(s: Seq<char>) -> Seq<char>
    decreases s.len(),
{
    if s.len() > 0 && s[0] == '\u{feff}' {
        strip_bom(s.drop_first())
    } else {
        s
    }
}

/// The structure of an LRC text: its entries and metadata.
pub open spec fn lrc_spec(content: Seq<char>) -> (Seq<(Seq<char>, Seq<char>)>, LrcMeta) {
    lrc_fold(lines_of(strip_bom(content)))
}

/// Byte-order marks at the start of LRC text change nothing: the entries and
/// metadata of a text with a leading mark are those of the text without it.
pub proof fn law_bom_ignored(s: Seq<char>)
    ensures
        lrc_spec(seq!['\u{feff}'] + s) == lrc_spec(s),
{
    let t = seq!['\u{feff}'] + s;
    assert(t.drop_first() =~= s);
    assert(strip_bom(t) == strip_bom(s));
}

/// One lyric line of an LRC text, before its time stamp is read: the time
/// tag's text and the line's text.
pub struct LrcEntry {
    pub time_tag: String,
    pub text: String,
}

/// The structure of an LRC text: metadata and the lyric entries in the order
/// they appear.
pub struct LrcDocument {
    pub title: Option<String>,
    pub artist: Option<String>,
    pub album: Option<String>,
    pub offset_ms: i64,
    pub entries: Vec<LrcEntry>,
}

/// The text of an optional string.
pub open spec fn opt_view(o: Option<String>) -> Option<Seq<char>> {
    match o {
        Some(s) => Some(s@),
        None => None,
    }
}

/// The (time tag, text) pairs of a sequence of entries.
pub open spec fn entry_views(es: Seq<LrcEntry>) -> Seq<(Seq<char>, Seq<char>)> {
    es.map_values(|e: LrcEntry| (e.time_tag@, e.text@))
}

impl LrcDocument {
    /// The document's metadata.
    pub open spec fn meta(&self) -> LrcMeta {
        meta_of(opt_view(self.title), opt_view(self.artist), opt_view(self.album), self.offset_ms)
    }

    /// The document's entries.
    pub open spec fn entry_seq(&self) -> Seq<(Seq<char>, Seq<char>)> {
        entry_views(self.entries@)
    }
}

fn apply_tag_exec(doc: &mut LrcDocument, tag: &Vec<char>) -> (is_time: bool)
    ensures
        (is_time, final(doc).meta()) == apply_tag(tag@, old(doc).meta()),
        final(doc).entries == old(doc).entries,
{
    match split_once_chars(tag, ':') {
        Some((k, v)) => {
            let key = string_of(&lowercase_chars(&trim_chars(&k)));
            let val = string_of(&trim_chars(&v));
            apply_keyed_tag_exec(doc, key.as_str(), val.as_str())
        },
        None => true,
    }
}

/// Applies a tag with the key `key` (trimmed, in lower case) and the trimmed
/// value `val` to `doc`'s metadata; returns whether the tag is a candidate
/// time stamp instead (see `apply_keyed_tag`).
pub fn apply_keyed_tag_exec(doc: &mut LrcDocument, key: &str, val: &str) -> (is_time: bool)
    ensures
        (is_time, final(doc).meta()) == apply_keyed_tag(key@, val@, old(doc).meta()),
        final(doc).entries == old(doc).entries,
{
    let key = chars_of(key);
    let val = chars_of(val);
    if chars_eq(&key, &chars_of("ti")) {
        doc.title = Some(string_of(&val));
        false
    } else if chars_eq(&key, &chars_of("ar")) {
        doc.artist = Some(string_of(&val));
        false
    } else if chars_eq(&key, &chars_of("al")) {
        doc.album = Some(string_of(&val));
        false
    } else if chars_eq(&key, &chars_of("offset")) {
        match parse_i64_chars(&val) {
            Some(o) => {
                doc.offset_ms = o;
            },
            None => {},
        }
        false
    } else {
        true
    }
}

fn push_entries(doc: &mut LrcDocument, tags: &Vec<Vec<char>>, text: &Vec<char>)
    ensures
        final(doc).meta() == old(doc).meta(),
        final(doc).entry_seq() == old(doc).entry_seq() + views(tags@).map_values(
            |t: Seq<char>| (t, text@),
        ),
{
    let ghost start = doc.entry_seq();
    for i in 0..tags.len()
        invariant
            doc.meta() == old(doc).meta(),
            start == old(doc).entry_seq(),
            doc.entry_seq() == start + views(tags@).take(i as int).map_values(
                |t: Seq<char>| (t, text@),
            ),
    {
        let ghost before = doc.entries@;
        let e = LrcEntry { time_tag: string_of(&tags[i]), text: string_of(text) };
        doc.entries.push(e);
        assert(entry_views(doc.entries@) =~= entry_views(before).push((tags@[i as int]@, text@)));
        assert(views(tags@).take(i + 1) =~= views(tags@).take(i as int).push(tags@[i as int]@));
        assert(views(tags@).take(i + 1).map_values(|t: Seq<char>| (t, text@)) =~= views(tags@).take(
            i as int,
        ).map_values(|t: Seq<char>| (t, text@)).push((tags@[i as int]@, text@)));
    }
    assert(views(tags@).take(tags.len() as int) == views(tags@));
}

fn scan_line(doc: &mut LrcDocument, line: &Vec<char>)
    requires
        trim(line@) == line@,
        line@.len() > 0,
    ensures
        (final(doc).entry_seq(), final(doc).meta()) == ({
            let q = line_entries(line@, old(doc).meta());
            (old(doc).entry_seq() + q.0, q.1)
        }),
{
    let mut rem = slice_chars(line, 0, line.len());
    assert(line@.subrange(0, line.len() as int) == line@);
    let mut tags: Vec<Vec<char>> = Vec::new();
    let ghost full = scan_tags(line@, old(doc).meta());
    assert(views(tags@) =~= Seq::<Seq<char>>::empty());
    loop
        invariant
            doc.entries == old(doc).entries,
            full == scan_tags(line@, old(doc).meta()),
            full.0 == views(tags@) + scan_tags(rem@, doc.meta()).0,
            full.1 == scan_tags(rem@, doc.meta()).1,
            full.2 == scan_tags(rem@, doc.meta()).2,
        ensures
            doc.entries == old(doc).entries,
            full.0 == views(tags@),
            full.1 == doc.meta(),
            full.2 == rem@,
        decreases rem.len(),
    {
        if rem.len() == 0 || rem[0] != '[' {
            assert(views(tags@) + Seq::<Seq<char>>::empty() == views(tags@));
            break;
        }
        let close = match find_char_in(&rem, ']') {
            Some(k) => k,
            None => {
                assert(views(tags@) + Seq::<Seq<char>>::empty() == views(tags@));
                break;
            },
        };
        proof {
            lemma_find_char(rem@, ']');
        }
        let tag = trim_chars(&slice_chars(&rem, 1, close));
        let ghost m = doc.meta();
        let is_time = apply_tag_exec(doc, &tag);
        let next = trim_start_chars(&slice_chars(&rem, close + 1, rem.len()));
        proof {
            lemma_trim_start_len(rem@.skip(close + 1));
            assert(rem@.subrange(close + 1, rem.len() as int) == rem@.skip(close + 1));
        }
        if is_time {
            let ghost before = tags@;
            tags.push(tag);
            assert(views(tags@) =~= views(before).push(tag@));
            assert(views(before) + (seq![tag@] + scan_tags(next@, doc.meta()).0) =~= views(tags@)
                + scan_tags(next@, doc.meta()).0);
        }
        rem = next;
    }
    let text = squash_whitespace(&strip_tags_exec(&rem));
    push_entries(doc, &tags, &text);
}

/// Strips leading byte-order marks.
fn strip_bom_chars(v: &Vec<char>) -> (r: Vec<char>)
    ensures
        r@ == strip_bom(v@),
{
    let mut lo: usize = 0;
    assert(v@.skip(0) == v@);
    while lo < v.len() && v[lo] == '\u{feff}'
        invariant
            lo <= v.len(),
            strip_bom(v@) == strip_bom(v@.skip(lo as int)),
        decreases v.len() - lo,
    {
        assert(v@.skip(lo as int).drop_first() == v@.skip(lo + 1));
        lo = lo + 1;
    }
    if lo < v.len() {
        assert(v@.skip(lo as int)[0] == v@[lo as int]);
    }
    slice_chars(v, lo, v.len())
}

/// Reads the structure of raw LRC text: the title, artist, album and offset
/// tags, and one entry per time tag of each lyric line, with the line's text
/// stripped of inline tags. Reading the time stamps themselves is left to the
/// caller.
pub fn parse_lrc(content: &str) -> (r: LrcDocument)
    ensures
        (r.entry_seq(), r.meta()) == lrc_spec(content@),
{
    let ls = split_lines(&strip_bom_chars(&chars_of(content)));
    let ghost lv = views(ls@);
    let mut doc = LrcDocument { title: None, artist: None, album: None, offset_ms: 0, entries: Vec::new() };
    assert(doc.entry_seq() =~= Seq::<(Seq<char>, Seq<char>)>::empty());
    for i in 0..ls.len()
        invariant
            lv == views(ls@),
            (doc.entry_seq(), doc.meta()) == lrc_fold(lv.take(i as int)),
    {
        assert(lv.take(i + 1).drop_last() == lv.take(i as int));
        assert(lv.take(i + 1).last() == ls@[i as int]@);
        let line = trim_chars(&ls[i]);
        if line.len() > 0 {
            proof {
                crate::text::lemma_trim_idempotent(ls@[i as int]@);
            }
            scan_line(&mut doc, &line);
        }
    }
    assert(lv.take(ls.len() as int) == lv);
    doc
}


/// A tag of two `:`-separated parts is always minutes and seconds: the
/// minutes are the first part, trimmed; when the trimmed second part has no
/// `.` or `,`, it is the seconds, with no fraction (`mm:ss`).
pub proof fn law_two_part_time_tags(a: Seq<char>, b: Seq<char>)
    requires
        forall|i: int| 0 <= i < a.len() ==> a[i] != ':',
        forall|i: int| 0 <= i < b.len() ==> b[i] != ':',
    ensures
        time_shape_spec(a + seq![':'] + b) is MinutesSeconds,
        time_shape_spec(a + seq![':'] + b)->MinutesSeconds_0 == trim(a),
        (forall|i: int| 0 <= i < trim(b).len() ==> trim(b)[i] != '.' && trim(b)[i] != ',') ==> time_shape_spec(
            a + seq![':'] + b,
        ) == TimeShapeModel::MinutesSeconds(trim(a), trim(b), None),
{
    let t = a + seq![':'] + b;
    assert(t[a.len() as int] == ':');
    assert forall|i: int| 0 <= i < a.len() implies t[i] != ':' by {
        assert(t[i] == a[i]);
    }
    lemma_find_char_at(t, ':', a.len() as int);
    assert(t.take(a.len() as int) =~= a);
    assert(t.skip(a.len() as int + 1) =~= b);
    lemma_find_char_none(b, ':');
    assert(split_all(b, ':') == seq![b]);
    assert(split_all(t, ':') == seq![a] + seq![b]);
    assert(split_all(t, ':') =~= seq![a, b]);
    let sec = trim(b);
    if forall|i: int| 0 <= i < sec.len() ==> sec[i] != '.' && sec[i] != ',' {
        lemma_find_char_none(sec, '.');
        lemma_find_char_none(sec, ',');
    }
}

/// In a two-part tag whose trimmed second part is `x.y` (the first `.`
/// after `x`), the seconds are `x` and the fraction digits `y`; with no `.`
/// but a `,` (`x,y`, the first `,`), the same.
pub proof fn law_two_part_time_tag_fractions(a: Seq<char>, b: Seq<char>, x: Seq<char>, y: Seq<char>, sep: char)
    requires
        forall|i: int| 0 <= i < a.len() ==> a[i] != ':',
        forall|i: int| 0 <= i < b.len() ==> b[i] != ':',
        sep == '.' || sep == ',',
        trim(b) == x + seq![sep] + y,
        forall|i: int| 0 <= i < x.len() ==> x[i] != sep,
        sep == ',' ==> forall|i: int| 0 <= i < trim(b).len() ==> trim(b)[i] != '.',
    ensures
        time_shape_spec(a + seq![':'] + b) == TimeShapeModel::MinutesSeconds(trim(a), x, Some(y)),
{
    law_two_part_time_tags(a, b);
    let sec = trim(b);
    assert(sec[x.len() as int] == sep);
    assert forall|i: int| 0 <= i < x.len() implies sec[i] != sep by {
        assert(sec[i] == x[i]);
    }
    lemma_find_char_at(sec, sep, x.len() as int);
    assert(sec.take(x.len() as int) =~= x);
    assert(sec.skip(x.len() as int + 1) =~= y);
    if sep == ',' {
        lemma_find_char_none(sec, '.');
    }
    let t = a + seq![':'] + b;
    assert(t[a.len() as int] == ':');
    assert forall|i: int| 0 <= i < a.len() implies t[i] != ':' by {
        assert(t[i] == a[i]);
    }
    lemma_find_char_at(t, ':', a.len() as int);
    assert(t.take(a.len() as int) =~= a);
    assert(t.skip(a.len() as int + 1) =~= b);
    lemma_find_char_none(b, ':');
    assert(split_all(b, ':') == seq![b]);
    assert(split_all(t, ':') == seq![a] + seq![b]);
    assert(split_all(t, ':') =~= seq![a, b]);
}

/// The layout of a time tag's text, before its numbers are read.
pub enum TimeShapeModel {
    /// `mm:ss`, `mm:ss.ff` or `mm:ss,ff`: minutes, seconds, fraction digits.
    MinutesSeconds(Seq<char>, Seq<char>, Option<Seq<char>>),
    /// `hh:mm:ss.ff` or `hh:mm:ss,ff`: hours, minutes, seconds, fraction digits.
    HoursMinutesSecondsFraction(Seq<char>, Seq<char>, Seq<char>, Seq<char>),
    /// Three plain parts: `mm:ss:cc`, `mm:ss:mmm` or `hh:mm:ss`, told apart by
    /// the values and the third part's length.
    ThreeParts(Seq<char>, Seq<char>, Seq<char>),
    /// Not two or three `:`-separated parts.
    NotATime,
}

/// Splits `s` at its first `.`, or else at its first `,`.
pub open spec fn split_fraction(s: Seq<char>) -> Option<(Seq<char>, Seq<char>)> {
    match split_once(s, '.') {
        Some(p) => Some(p),
        None => split_once(s, ','),
    }
}

/// The layout of the time tag `tag` (the parts trimmed; the seconds and
/// fraction split at the first `.` or else `,`).
pub open spec fn time_shape_spec(tag: Seq<char>) -> TimeShapeModel {
    let parts = split_all(tag, ':');
    if parts.len() == 2 {
        let sec = trim(parts[1]);
        match split_fraction(sec) {
            Some((a, b)) => TimeShapeModel::MinutesSeconds(trim(parts[0]), a, Some(b)),
            None => TimeShapeModel::MinutesSeconds(trim(parts[0]), sec, None),
        }
    } else if parts.len() == 3 {
        let third = trim(parts[2]);
        match split_fraction(third) {
            Some((a, b)) => TimeShapeModel::HoursMinutesSecondsFraction(
                trim(parts[0]),
                trim(parts[1]),
                a,
                b,
            ),
            None => TimeShapeModel::ThreeParts(trim(parts[0]), trim(parts[1]), third),
        }
    } else {
        TimeShapeModel::NotATime
    }
}

/// The layout of a time tag's text, before its numbers are read.
pub enum TimeShape {
    MinutesSeconds { minutes: String, seconds: String, fraction: Option<String> },
    HoursMinutesSecondsFraction { hours: String, minutes: String, seconds: String, fraction_text: String },
    ThreeParts { first: String, second: String, third: String },
    NotATime,
}

/// The layout, mathematically.
pub open spec fn time_shape_view(t: TimeShape) -> TimeShapeModel {
    match t {
        TimeShape::MinutesSeconds { minutes, seconds, fraction } => TimeShapeModel::MinutesSeconds(
            minutes@,
            seconds@,
            opt_view(fraction),
        ),
        TimeShape::HoursMinutesSecondsFraction { hours, minutes, seconds, fraction_text } =>
            TimeShapeModel::HoursMinutesSecondsFraction(hours@, minutes@, seconds@, fraction_text@),
        TimeShape::ThreeParts { first, second, third } => TimeShapeModel::ThreeParts(
            first@,
            second@,
            third@,
        ),
        TimeShape::NotATime => TimeShapeModel::NotATime,
    }
}

fn split_fraction_chars(s: &Vec<char>) -> (r: Option<(Vec<char>, Vec<char>)>)
    ensures
        match r {
            Some((a, b)) => split_fraction(s@) == Some((a@, b@)),
            None => split_fraction(s@) is None,
        },
{
    match split_once_chars(s, '.') {
        Some(p) => Some(p),
        None => split_once_chars(s, ','),
    }
}

/// Reads the layout of a time tag's text (see `time_shape_spec`); the numbers
/// in it are read by the caller.
pub fn time_tag_shape(tag: &str) -> (r: TimeShape)
    ensures
        time_shape_view(r) == time_shape_spec(tag@),
{
    let parts = split_all_chars(&chars_of(tag), ':');
    if parts.len() == 2 {
        let minutes = trim_chars(&parts[0]);
        let sec = trim_chars(&parts[1]);
        match split_fraction_chars(&sec) {
            Some((a, b)) => TimeShape::MinutesSeconds {
                minutes: string_of(&minutes),
                seconds: string_of(&a),
                fraction: Some(string_of(&b)),
            },
            None => TimeShape::MinutesSeconds {
                minutes: string_of(&minutes),
                seconds: string_of(&sec),
                fraction: None,
            },
        }
    } else if parts.len() == 3 {
        let first = trim_chars(&parts[0]);
        let second = trim_chars(&parts[1]);
        let third = trim_chars(&parts[2]);
        match split_fraction_chars(&third) {
            Some((a, b)) => TimeShape::HoursMinutesSecondsFraction {
                hours: string_of(&first),
                minutes: string_of(&second),
                seconds: string_of(&a),
                fraction_text: string_of(&b),
            },
            None => TimeShape::ThreeParts {
                first: string_of(&first),
                second: string_of(&second),
                third: string_of(&third),
            },
        }
    } else {
        TimeShape::NotATime
    }
}

} // verus!
