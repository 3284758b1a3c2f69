//! Playlists: which files are media, path names and extensions, playlist
//! file contents, directory listings and the expansion of input paths.
use vstd::prelude::*;
use crate::text::{
    chars_eq, chars_of, last_index_in, last_index_of, lemma_last_index_of, lowercase, lowercase_chars,
    slice_chars, has_prefix, starts_with_chars, concat_chars, split_lines, lines_of, trim, trim_chars,
    find_char, split_once, split_once_chars, string_of, string_views, views, sorted_lex, insert_sorted,
    sort_lex, lemma_sorted_is_sort_lex, lex_le, lex_order, lemma_lex_total_ordering,
};

verus! {

/// The supported media extensions (lower case, no leading dot): tracker
/// modules, audio files and video containers.
pub open spec fn supported_extensions() -> Seq<Seq<char>> {
    seq![
        "mod"@, "xm"@, "s3m"@, "it"@, "stm"@, "669"@, "mtm"@, "med"@, "okt"@, "psm"@, "mptm"@,
        "flac"@, "wav"@, "mp3"@, "ogg"@, "opus"@, "aac"@, "m4a"@, "mid"@, "midi"@, "aif"@, "aiff"@, "wma"@,
        "mp4"@, "mkv"@, "webm"@, "avi"@, "mov"@,
    ]
}

/// Whether `ext` names a supported media format, in any letter case.
pub open spec fn is_supported_ext(ext: Seq<char>) -> bool {
    supported_extensions().contains(lowercase(ext))
}

/// The playlist extensions (lower case).
pub open spec fn playlist_extensions() -> Seq<Seq<char>> {
    seq!["pls"@, "m3u"@, "m3u8"@]
}

/// Whether `ext` names a playlist format, in any letter case.
pub open spec fn is_playlist_ext(ext: Seq<char>) -> bool {
    playlist_extensions().contains(lowercase(ext))
}

/// Whether `x` is one of `table`.
fn member_of(table: &Vec<&'static str>, x: &Vec<char>) -> (r: bool)
    ensures
        r == table@.map_values(|s: &'static str| s@).contains(x@),
{
    let ghost views = table@.map_values(|s: &'static str| s@);
    let mut i: usize = 0;
    while i < table.len()
        invariant
            i <= table.len(),
            views == table@.map_values(|s: &'static str| s@),
            forall|j: int| 0 <= j < i ==> views[j] != x@,
        decreases table.len() - i,
    {
        let entry = chars_of(table[i]);
        if chars_eq(&entry, x) {
            assert(views[i as int] == x@);
            return true;
        }
        i = i + 1;
    }
    false
}

/// Tests whether `lower`, an extension already in lower case, is one of the
/// supported media extensions.
pub fn is_supported_lowered(lower: &str) -> (r: bool)
    ensures
        r == supported_extensions().contains(lower@),
{
    let table: Vec<&'static str> = vec![
        "mod", "xm", "s3m", "it", "stm", "669", "mtm", "med", "okt", "psm", "mptm",
        "flac", "wav", "mp3", "ogg", "opus", "aac", "m4a", "mid", "midi", "aif", "aiff", "wma",
        "mp4", "mkv", "webm", "avi", "mov",
    ];
    assert(table@.map_values(|s: &'static str| s@) =~= supported_extensions());
    member_of(&table, &chars_of(lower))
}

/// Returns true if the file extension corresponds to a supported audio, video, or tracker format.
pub fn is_supported_media_extension(ext: &str) -> (r: bool)
    ensures
        r == is_supported_ext(ext@),
{
    let lower = string_of(&lowercase_chars(&chars_of(ext)));
    is_supported_lowered(lower.as_str())
}

/// Tests whether `lower`, an extension already in lower case, is one of the
/// playlist extensions.
pub fn is_playlist_lowered(lower: &str) -> (r: bool)
    ensures
        r == playlist_extensions().contains(lower@),
{
    let table: Vec<&'static str> = vec!["pls", "m3u", "m3u8"];
    assert(table@.map_values(|s: &'static str| s@) =~= playlist_extensions());
    member_of(&table, &chars_of(lower))
}

/// Returns true if the file extension corresponds to a playlist file (.pls, .m3u, .m3u8).
pub fn is_playlist_extension(ext: &str) -> (r: bool)
    ensures
        r == is_playlist_ext(ext@),
{
    let lower = string_of(&lowercase_chars(&chars_of(ext)));
    is_playlist_lowered(lower.as_str())
}

/// The final name of a Unix path, as `Path::file_name` finds it: the last
/// component that is neither empty nor `.`; none when that component is `..`
/// or when there is no such component.
pub open spec fn file_name_of(p: Seq<char>) -> Option<Seq<char>>
    decreases p.len(),
{
    let k = last_index_of(p, '/');
    let seg = p.skip(k + 1);
    if seg.len() == 0 || seg == seq!['.'] {
        if k < 0 {
            None
        } else {
            proof {
                lemma_last_index_of(p, '/');
            }
            file_name_of(p.take(k))
        }
    } else if seg == seq!['.', '.'] {
        None
    } else {
        Some(seg)
    }
}

/// The extension of a Unix path, as `Path::extension` finds it: what follows
/// the last `.` of the file name, unless that `.` is the name's first character.
pub open spec fn extension_of(p: Seq<char>) -> Option<Seq<char>> {
    match file_name_of(p) {
        None => None,
        Some(name) => {
            let k = last_index_of(name, '.');
            if k <= 0 {
                None
            } else {
                Some(name.skip(k + 1))
            }
        },
    }
}

/// The file name of the path `p` (see `file_name_of`).
pub fn file_name(p: &Vec<char>) -> (r: Option<Vec<char>>)
    ensures
        match r {
            Some(n) => file_name_of(p@) == Some(n@),
            None => file_name_of(p@) is None,
        },
{
    let mut end: usize = p.len();
    assert(p@.take(end as int) == p@);
    loop
        invariant
            end <= p.len(),
            file_name_of(p@) == file_name_of(p@.take(end as int)),
        decreases end,
    {
        let ghost q = p@.take(end as int);
        let slash = last_index_in(p, '/', end);
        proof {
            lemma_last_index_of(q, '/');
        }
        let start: usize = match slash {
            Some(k) => k + 1,
            None => 0,
        };
        let seg = slice_chars(p, start, end);
        assert(seg@ == q.skip(last_index_of(q, '/') + 1));
        if seg.len() == 0 || (seg.len() == 1 && seg[0] == '.') {
            assert(seg@.len() == 0 || seg@ == seq!['.']);
            match slash {
                None => {
                    return None;
                },
                Some(k) => {
                    assert(q.take(k as int) == p@.take(k as int));
                    end = k;
                },
            }
        } else if seg.len() == 2 && seg[0] == '.' && seg[1] == '.' {
            assert(seg@ == seq!['.', '.']);
            return None;
        } else {
            assert(seg@ != seq!['.']);
            assert(seg@ != seq!['.', '.']);
            return Some(seg);
        }
    }
}

/// The extension of the path `p` (see `extension_of`).
pub fn path_extension(p: &Vec<char>) -> (r: Option<Vec<char>>)
    ensures
        match r {
            Some(e) => extension_of(p@) == Some(e@),
            None => extension_of(p@) is None,
        },
{
    match file_name(p) {
        None => None,
        Some(name) => {
            let dot = last_index_in(&name, '.', name.len());
            assert(name@.take(name.len() as int) == name@);
            proof {
                lemma_last_index_of(name@, '.');
            }
            match dot {
                Some(k) => {
                    if k == 0 {
                        None
                    } else {
                        Some(slice_chars(&name, k + 1, name.len()))
                    }
                },
                None => None,
            }
        },
    }
}


/// Whether `s` is a stream URL (`http://` or `https://`).
pub open spec fn is_remote(s: Seq<char>) -> bool {
    has_prefix(s, "http://"@) || has_prefix(s, "https://"@)
}

/// `entry` appended to the directory `base` as `PathBuf::push` does it: a `/`
/// is put between them unless `base` is empty or already ends with one.
pub open spec fn join_path(base: Seq<char>, entry: Seq<char>) -> Seq<char> {
    if base.len() == 0 {
        entry
    } else if base.last() == '/' {
        base + entry
    } else {
        base + seq!['/'] + entry
    }
}

/// A playlist entry resolved against the playlist's directory: URLs and
/// absolute paths stay as they are, relative paths are joined to `base`.
pub open spec fn resolve_spec(entry: Seq<char>, base: Seq<char>) -> Seq<char> {
    if is_remote(entry) {
        entry
    } else if entry.len() > 0 && entry[0] == '/' {
        entry
    } else {
        join_path(base, entry)
    }
}

/// Tests whether `s` is a stream URL.
pub fn is_remote_chars(s: &Vec<char>) -> (r: bool)
    ensures
        r == is_remote(s@),
{
    starts_with_chars(s, &chars_of("http://")) || starts_with_chars(s, &chars_of("https://"))
}

/// Tests whether `s` is a stream URL (`http://` or `https://`), which has no
/// files beside it (no directory listing, no sidecar lyrics).
pub fn is_stream_url(s: &str) -> (r: bool)
    ensures
        r == is_remote(s@),
{
    is_remote_chars(&chars_of(s))
}

fn resolve_chars(entry: &Vec<char>, base: &Vec<char>) -> (r: Vec<char>)
    ensures
        r@ == resolve_spec(entry@, base@),
{
    if is_remote_chars(entry) {
        return slice_chars(entry, 0, entry.len());
    }
    assert(entry@.subrange(0, entry.len() as int) == entry@);
    if entry.len() > 0 && entry[0] == '/' {
        return slice_chars(entry, 0, entry.len());
    }
    if base.len() == 0 {
        slice_chars(entry, 0, entry.len())
    } else if base[base.len() - 1] == '/' {
        concat_chars(base, entry)
    } else {
        let mut b = slice_chars(base, 0, base.len());
        assert(base@.subrange(0, base.len() as int) == base@);
        b.push('/');
        concat_chars(&b, entry)
    }
}

/// Resolves a playlist entry against the playlist's directory `base_dir`:
/// stream URLs and absolute paths are kept, relative paths are joined to it.
pub fn resolve_path(entry: &str, base_dir: &str) -> (r: String)
    ensures
        r@ == resolve_spec(entry@, base_dir@),
{
    string_of(&resolve_chars(&chars_of(entry), &chars_of(base_dir)))
}

/// The entry that one line of a `.pls` playlist contributes: a trimmed line
/// `File<n>=<path>` gives its trimmed, non-empty path, resolved.
pub open spec fn pls_entry(line: Seq<char>, base: Seq<char>) -> Option<Seq<char>> {
    let t = trim(line);
    if has_prefix(t, "File"@) {
        match split_once(t.skip(4), '=') {
            Some((_key, value)) => {
                let path = trim(value);
                if path.len() > 0 {
                    Some(resolve_spec(path, base))
                } else {
                    None
                }
            },
            None => None,
        }
    } else {
        None
    }
}

/// The entry that one line of an `.m3u` playlist contributes: a trimmed line
/// that is neither empty nor a `#` comment, resolved.
pub open spec fn m3u_entry(line: Seq<char>, base: Seq<char>) -> Option<Seq<char>> {
    let t = trim(line);
    if t.len() == 0 || t[0] == '#' {
        None
    } else {
        Some(resolve_spec(t, base))
    }
}

/// The entry one playlist line contributes, for either format.
pub open spec fn playlist_entry(line: Seq<char>, base: Seq<char>, pls: bool) -> Option<Seq<char>> {
    if pls {
        pls_entry(line, base)
    } else {
        m3u_entry(line, base)
    }
}

/// The entries that the lines `ls` contribute, in order.
pub open spec fn playlist_entries(ls: Seq<Seq<char>>, base: Seq<char>, pls: bool) -> Seq<Seq<char>>
    decreases ls.len(),
{
    if ls.len() == 0 {
        seq![]
    } else {
        let rest = playlist_entries(ls.drop_last(), base, pls);
        match playlist_entry(ls.last(), base, pls) {
            Some(e) => rest.push(e),
            None => rest,
        }
    }
}

/// Whether an M3U line names a track: once trimmed, it is neither empty nor
/// a `#` comment.
pub open spec fn m3u_track_line(l: Seq<char>) -> bool {
    trim(l).len() > 0 && trim(l)[0] != '#'
}

/// An M3U playlist holds exactly one entry per track line, in order: each
/// the line trimmed and resolved against the playlist's directory.
pub proof fn law_m3u_one_entry_per_track_line(ls: Seq<Seq<char>>, base: Seq<char>)
    ensures
        playlist_entries(ls, base, false) == ls.filter(|l: Seq<char>| m3u_track_line(l)).map_values(
            |l: Seq<char>| resolve_spec(trim(l), base),
        ),
    decreases ls.len(),
{
    reveal(Seq::filter);
    if ls.len() > 0 {
        law_m3u_one_entry_per_track_line(ls.drop_last(), base);
        let f = ls.drop_last().filter(|l: Seq<char>| m3u_track_line(l));
        if m3u_track_line(ls.last()) {
            assert(ls.filter(|l: Seq<char>| m3u_track_line(l)) == f.push(ls.last()));
            assert(f.push(ls.last()).map_values(|l: Seq<char>| resolve_spec(trim(l), base)) =~= f.map_values(
                |l: Seq<char>| resolve_spec(trim(l), base),
            ).push(resolve_spec(trim(ls.last()), base)));
        } else {
            assert(ls.filter(|l: Seq<char>| m3u_track_line(l)) == f);
        }
    } else {
        assert(ls.filter(|l: Seq<char>| m3u_track_line(l)).map_values(|l: Seq<char>| resolve_spec(trim(l), base))
            =~= Seq::<Seq<char>>::empty());
    }
}

/// Whether the playlist at path `p` is in the `.pls` format (by its
/// extension, in any letter case); every other playlist is read as M3U.
pub open spec fn is_pls_path(p: Seq<char>) -> bool {
    lowercase(
        match extension_of(p) {
            Some(e) => e,
            None => seq![],
        },
    ) == "pls"@
}

fn line_entry(line: &Vec<char>, base: &Vec<char>, pls: bool) -> (r: Option<Vec<char>>)
    ensures
        match r {
            Some(e) => playlist_entry(line@, base@, pls) == Some(e@),
            None => playlist_entry(line@, base@, pls) is None,
        },
{
    let t = trim_chars(line);
    if pls {
        proof {
            reveal_strlit("File");
        }
        if !starts_with_chars(&t, &chars_of("File")) {
            return None;
        }
        let rest = slice_chars(&t, 4, t.len());
        match split_once_chars(&rest, '=') {
            Some((_key, value)) => {
                let path = trim_chars(&value);
                if path.len() > 0 {
                    Some(resolve_chars(&path, base))
                } else {
                    None
                }
            },
            None => None,
        }
    } else {
        if t.len() == 0 || t[0] == '#' {
            None
        } else {
            Some(resolve_chars(&t, base))
        }
    }
}

/// Parses the text of a local playlist (.pls, .m3u, .m3u8) found at
/// `playlist_path` and resolves relative entries against `parent_dir`, the
/// playlist file's parent directory.
pub fn parse_playlist_text(playlist_path: &str, parent_dir: &str, content: &str) -> (r: Vec<String>)
    ensures
        string_views(r@) == playlist_entries(
            lines_of(content@),
            parent_dir@,
            is_pls_path(playlist_path@),
        ),
{
    let path = chars_of(playlist_path);
    let ext = match path_extension(&path) {
        Some(e) => e,
        None => Vec::new(),
    };
    assert(ext@ == match extension_of(playlist_path@) {
        Some(e) => e,
        None => Seq::<char>::empty(),
    });
    let pls = chars_eq(&lowercase_chars(&ext), &chars_of("pls"));
    let base = chars_of(parent_dir);
    let ls = split_lines(&chars_of(content));
    let ghost lv = views(ls@);
    let mut out: Vec<String> = Vec::new();
    for i in 0..ls.len()
        invariant
            lv == views(ls@),
            lv == lines_of(content@),
            base@ == parent_dir@,
            string_views(out@) == playlist_entries(lv.take(i as int), base@, pls),
    {
        assert(lv.take(i + 1).drop_last() == lv.take(i as int));
        assert(lv.take(i + 1).last() == ls@[i as int]@);
        match line_entry(&ls[i], &base, pls) {
            Some(e) => {
                let ghost before = out@;
                out.push(string_of(&e));
                assert(string_views(out@) =~= string_views(before).push(e@));
            },
            None => {},
        }
    }
    assert(lv.take(ls.len() as int) == lv);
    out
}


/// Whether the path `p` names a supported media file (by its extension).
pub open spec fn is_media_path(p: Seq<char>) -> bool {
    match extension_of(p) {
        Some(e) => is_supported_ext(e),
        None => false,
    }
}

/// The media files among `ps`, in their order.
pub open spec fn media_paths(ps: Seq<Seq<char>>) -> Seq<Seq<char>>
    decreases ps.len(),
{
    if ps.len() == 0 {
        seq![]
    } else {
        let rest = media_paths(ps.drop_last());
        if is_media_path(ps.last()) {
            rest.push(ps.last())
        } else {
            rest
        }
    }
}

proof fn lemma_media_paths_within(ps: Seq<Seq<char>>)
    ensures
        forall|x: Seq<char>| media_paths(ps).contains(x) ==> ps.contains(x),
        ps.no_duplicates() ==> media_paths(ps).no_duplicates(),
    decreases ps.len(),
{
    if ps.len() > 0 {
        let init = ps.drop_last();
        lemma_media_paths_within(init);
        assert forall|x: Seq<char>| init.contains(x) implies ps.contains(x) by {
            let k = choose|k: int| 0 <= k < init.len() && init[k] == x;
            assert(ps[k] == x);
        }
        let r = media_paths(init);
        if is_media_path(ps.last()) {
            assert(media_paths(ps) == r.push(ps.last()));
            assert forall|x: Seq<char>| media_paths(ps).contains(x) implies ps.contains(x) by {
                let k = choose|k: int| 0 <= k < media_paths(ps).len() && media_paths(ps)[k] == x;
                if k < r.len() {
                    assert(r[k] == x);
                    assert(r.contains(x));
                } else {
                    assert(ps[ps.len() - 1] == x);
                }
            }
            if ps.no_duplicates() {
                assert(init.no_duplicates()) by {
                    assert forall|i: int, j: int| 0 <= i < init.len() && 0 <= j < init.len() && i != j implies init[i]
                        != init[j] by {
                        assert(init[i] == ps[i] && init[j] == ps[j]);
                    }
                }
                assert(!r.contains(ps.last())) by {
                    if r.contains(ps.last()) {
                        assert(init.contains(ps.last()));
                        let k = choose|k: int| 0 <= k < init.len() && init[k] == ps.last();
                        assert(ps[k] == init[k]);
                        assert(ps[k] == ps[ps.len() - 1]);
                    }
                }
                let q = media_paths(ps);
                assert forall|i: int, j: int| 0 <= i < q.len() && 0 <= j < q.len() && i != j implies q[i] != q[j] by {
                    if i < r.len() && j < r.len() {
                        assert(q[i] == r[i] && q[j] == r[j]);
                    } else if i < r.len() {
                        assert(q[i] == r[i]);
                        assert(r.contains(q[i]));
                    } else if j < r.len() {
                        assert(q[j] == r[j]);
                        assert(r.contains(q[j]));
                    }
                }
            }
        } else {
            assert(media_paths(ps) == r);
            if ps.no_duplicates() {
                assert forall|i: int, j: int| 0 <= i < init.len() && 0 <= j < init.len() && i != j implies init[i]
                    != init[j] by {
                    assert(init[i] == ps[i] && init[j] == ps[j]);
                }
            }
        }
    }
}

/// A scan lists each media file of the listing once, in ascending order,
/// when the listing names each file once (as a directory walk does): the
/// result is strictly ascending.
pub proof fn law_scan_strictly_ascending(files: Seq<Seq<char>>)
    requires
        files.no_duplicates(),
    ensures
        sorted_lex(sort_lex(media_paths(files))),
        sort_lex(media_paths(files)).no_duplicates(),
{
    let mp = media_paths(files);
    lemma_media_paths_within(files);
    lemma_lex_total_ordering();
    mp.lemma_sort_by_ensures(lex_order());
    let t = sort_lex(mp);
    assert forall|p: int, q: int| 0 <= p < q < t.len() implies lex_le(#[trigger] t[p], #[trigger] t[q]) by {
        assert(lex_order()(t[p], t[q]));
    }
    mp.lemma_multiset_has_no_duplicates();
    t.lemma_multiset_has_no_duplicates_conv();
}

/// Tests whether the path `p` names a supported media file.
pub fn is_media_file(p: &str) -> (r: bool)
    ensures
        r == is_media_path(p@),
{
    match path_extension(&chars_of(p)) {
        Some(e) => is_supported_media_extension(string_of(&e).as_str()),
        None => false,
    }
}

/// The supported media files among `files` (every file found when a
/// directory tree was walked), sorted alphabetically.
pub fn scan_directory(files: &Vec<String>) -> (r: Vec<String>)
    ensures
        string_views(r@) == sort_lex(media_paths(string_views(files@))),
        sorted_lex(string_views(r@)),
        string_views(r@).to_multiset() == media_paths(string_views(files@)).to_multiset(),
{
    let ghost fv = string_views(files@);
    let mut acc: Vec<Vec<char>> = Vec::new();
    assert(views(acc@) =~= Seq::<Seq<char>>::empty());
    for i in 0..files.len()
        invariant
            fv == string_views(files@),
            sorted_lex(views(acc@)),
            views(acc@).to_multiset() == media_paths(fv.take(i as int)).to_multiset(),
    {
        assert(fv.take(i + 1).drop_last() == fv.take(i as int));
        assert(fv.take(i + 1).last() == files@[i as int]@);
        if is_media_file(files[i].as_str()) {
            let c = chars_of(files[i].as_str());
            insert_sorted(&mut acc, c);
            proof {
                vstd::seq_lib::to_multiset_build(media_paths(fv.take(i as int)), files@[i as int]@);
            }
        }
    }
    assert(fv.take(files.len() as int) == fv);
    let mut out: Vec<String> = Vec::new();
    for i in 0..acc.len()
        invariant
            string_views(out@) == views(acc@).take(i as int),
    {
        let ghost before = out@;
        let item = string_of(&acc[i]);
        assert(item@ == views(acc@)[i as int]);
        out.push(item);
        assert(string_views(out@) =~= string_views(before).push(item@));
        assert(views(acc@).take(i + 1) =~= views(acc@).take(i as int).push(item@));
    }
    assert(views(acc@).take(acc.len() as int) == views(acc@));
    proof {
        lemma_sorted_is_sort_lex(string_views(out@), media_paths(fv));
    }
    out
}


/// What the file system says about one input path.
pub struct PathProbe {
    /// Whether the path is a directory.
    pub is_dir: bool,
    /// Every file found under the directory, when it is one.
    pub dir_files: Vec<String>,
    /// The entries of the playlist at the path, when it is a playlist file
    /// that could be read; `None` when it could not.
    pub playlist: Option<Vec<String>>,
}

/// What one input path expands to, given what the file system says of it:
/// nothing for an empty path; a stream URL as it is; a directory's supported
/// media files, sorted; a playlist's entries (or the path itself when the
/// playlist could not be read); any other path as it is.
pub open spec fn expansion_of(
    path: Seq<char>,
    is_dir: bool,
    dir_files: Seq<Seq<char>>,
    playlist: Option<Seq<Seq<char>>>,
) -> Seq<Seq<char>> {
    if path.len() == 0 {
        seq![]
    } else if is_remote(path) {
        seq![path]
    } else if is_dir {
        sort_lex(media_paths(dir_files))
    } else {
        match extension_of(path) {
            Some(e) => if is_playlist_ext(e) {
                match playlist {
                    Some(entries) => entries,
                    None => seq![path],
                }
            } else {
                seq![path]
            },
            None => seq![path],
        }
    }
}

/// The probe's view: whether a directory, its files, and the playlist's entries.
pub open spec fn probe_view(p: PathProbe) -> (bool, Seq<Seq<char>>, Option<Seq<Seq<char>>>) {
    (
        p.is_dir,
        string_views(p.dir_files@),
        match p.playlist {
            Some(v) => Some(string_views(v@)),
            None => None,
        },
    )
}

/// The expansion of the first `n` inputs, concatenated.
pub open spec fn expansions(paths: Seq<Seq<char>>, probes: Seq<PathProbe>, n: int) -> Seq<Seq<char>>
    decreases n,
{
    if n <= 0 {
        seq![]
    } else {
        let v = probe_view(probes[n - 1]);
        expansions(paths, probes, n - 1) + expansion_of(paths[n - 1], v.0, v.1, v.2)
    }
}

/// Whether the path `p` needs its playlist read to be expanded: it is not a
/// stream URL and its extension is a playlist extension.
pub open spec fn wants_playlist(p: Seq<char>) -> bool {
    &&& p.len() > 0
    &&& !is_remote(p)
    &&& match extension_of(p) {
        Some(e) => is_playlist_ext(e),
        None => false,
    }
}

/// Tests whether a non-directory input path is a playlist that must be read.
pub fn is_playlist_path(p: &str) -> (r: bool)
    ensures
        r == wants_playlist(p@),
{
    let c = chars_of(p);
    if c.len() == 0 || is_remote_chars(&c) {
        return false;
    }
    match path_extension(&c) {
        Some(e) => is_playlist_extension(string_of(&e).as_str()),
        None => false,
    }
}

fn extend_strings(out: &mut Vec<String>, items: &Vec<String>)
    ensures
        string_views(final(out)@) == string_views(old(out)@) + string_views(items@),
{
    let ghost start = string_views(out@);
    for i in 0..items.len()
        invariant
            string_views(out@) == start + string_views(items@).take(i as int),
    {
        let ghost before = out@;
        let item = string_of(&chars_of(items[i].as_str()));
        out.push(item);
        assert(string_views(out@) =~= string_views(before).push(items@[i as int]@));
        assert(string_views(items@).take(i + 1) =~= string_views(items@).take(i as int).push(
            items@[i as int]@,
        ));
    }
    assert(string_views(items@).take(items.len() as int) == string_views(items@));
}

/// Expands a list of user input paths (CLI arguments, drag-and-drop, or IPC),
/// given what the file system says of each (`probes[i]` is about `paths[i]`):
/// - Directories are replaced by their supported media files, sorted.
/// - Playlist files (.m3u, .pls) are replaced by their entries.
/// - Normal files and stream URLs are passed through as-is.
pub fn expand_input_paths(paths: &Vec<String>, probes: &Vec<PathProbe>) -> (r: Vec<String>)
    requires
        probes.len() == paths.len(),
    ensures
        string_views(r@) == expansions(string_views(paths@), probes@, paths.len() as int),
{
    let ghost pv = string_views(paths@);
    let mut out: Vec<String> = Vec::new();
    assert(string_views(out@) =~= Seq::<Seq<char>>::empty());
    for i in 0..paths.len()
        invariant
            probes.len() == paths.len(),
            pv == string_views(paths@),
            string_views(out@) == expansions(pv, probes@, i as int),
    {
        let p = chars_of(paths[i].as_str());
        let probe = &probes[i];
        let ghost v = probe_view(probes@[i as int]);
        let ghost before = string_views(out@);
        let ghost want = expansion_of(pv[i as int], v.0, v.1, v.2);
        if p.len() == 0 {
            assert(want =~= Seq::<Seq<char>>::empty());
        } else if is_remote_chars(&p) {
            out.push(string_of(&p));
            assert(string_views(out@) =~= before + want);
        } else if probe.is_dir {
            let scanned = scan_directory(&probe.dir_files);
            extend_strings(&mut out, &scanned);
        } else {
            let ext = path_extension(&p);
            let is_list = match ext {
                Some(e) => is_playlist_extension(string_of(&e).as_str()),
                None => false,
            };
            if is_list {
                match &probe.playlist {
                    Some(entries) => {
                        extend_strings(&mut out, entries);
                    },
                    None => {
                        out.push(string_of(&p));
                        assert(string_views(out@) =~= before + want);
                    },
                }
            } else {
                out.push(string_of(&p));
                assert(string_views(out@) =~= before + want);
            }
        }
        assert(string_views(out@) == before + want);
    }
    out
}

} // verus!
