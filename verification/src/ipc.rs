//! The single-instance protocol: a second launch forwards its input paths to
//! the running instance over a local socket. The request is a header line,
//! a count line and one line per path; the running instance answers `OK`.
use vstd::prelude::*;
use crate::text::{
    chars_of, string_of, string_views, views, trim, trim_chars, chars_eq, is_digit, digit_value,
    digits_value, all_digits, parse_usize_spec, parse_usize_chars, find_char, lemma_find_char_at,
    is_ws, trim_start, trim_end, unsigned_digits, concat_chars,
};

verus! {

/// The first line of every request.
pub open spec fn request_header() -> Seq<char> {
    "RUSTTRACKER_IPC_V1"@
}

/// The character of the decimal digit `d`.
pub open spec fn digit_char(d: int) -> char {
    if d == 0 {
        '0'
    } else if d == 1 {
        '1'
    } else if d == 2 {
        '2'
    } else if d == 3 {
        '3'
    } else if d == 4 {
        '4'
    } else if d == 5 {
        '5'
    } else if d == 6 {
        '6'
    } else if d == 7 {
        '7'
    } else if d == 8 {
        '8'
    } else {
        '9'
    }
}

/// The decimal representation of `n`, as `format!("{}", n)` writes it.
pub open spec fn decimal(n: nat) -> Seq<char>
    decreases n,
{
    if n < 10 {
        seq![digit_char(n as int)]
    } else {
        decimal(n / 10).push(digit_char((n % 10) as int))
    }
}

fn digit_char_exec(d: usize) -> (c: char)
    requires
        d < 10,
    ensures
        c == digit_char(d as int),
{
    if d == 0 {
        '0'
    } else if d == 1 {
        '1'
    } else if d == 2 {
        '2'
    } else if d == 3 {
        '3'
    } else if d == 4 {
        '4'
    } else if d == 5 {
        '5'
    } else if d == 6 {
        '6'
    } else if d == 7 {
        '7'
    } else if d == 8 {
        '8'
    } else {
        '9'
    }
}

/// The decimal representation of `n`.
pub fn decimal_chars(n: usize) -> (r: Vec<char>)
    ensures
        r@ == decimal(n as nat),
    decreases n,
{
    if n < 10 {
        let mut v: Vec<char> = Vec::new();
        v.push(digit_char_exec(n));
        assert(v@ =~= seq![digit_char(n as int)]);
        v
    } else {
        let mut v = decimal_chars(n / 10);
        v.push(digit_char_exec(n % 10));
        v
    }
}

/// Each path followed by a newline, one after another.
pub open spec fn path_lines(paths: Seq<Seq<char>>) -> Seq<char>
    decreases paths.len(),
{
    if paths.len() == 0 {
        seq![]
    } else {
        paths[0] + seq!['\n'] + path_lines(paths.drop_first())
    }
}

/// The request that forwards `paths`: the header, the number of paths, then
/// each path, each on a line of its own.
pub open spec fn request_text(paths: Seq<Seq<char>>) -> Seq<char> {
    request_header() + seq!['\n'] + decimal(paths.len()) + seq!['\n'] + path_lines(paths)
}

proof fn lemma_path_lines_push(paths: Seq<Seq<char>>, p: Seq<char>)
    ensures
        path_lines(paths.push(p)) == path_lines(paths) + p + seq!['\n'],
    decreases paths.len(),
{
    if paths.len() == 0 {
        assert(paths.push(p).drop_first() =~= Seq::<Seq<char>>::empty());
        assert(path_lines(paths.push(p).drop_first()) == Seq::<char>::empty());
        assert(paths.push(p)[0] == p);
        assert(path_lines(paths) == Seq::<char>::empty());
        assert(path_lines(paths.push(p)) =~= p + seq!['\n']);
    } else {
        assert(paths.push(p).drop_first() =~= paths.drop_first().push(p));
        lemma_path_lines_push(paths.drop_first(), p);
        assert(path_lines(paths.push(p)) =~= path_lines(paths) + p + seq!['\n']);
    }
}

/// Builds the request that forwards `paths` to a running instance.
pub fn encode_forward_request(paths: &Vec<String>) -> (r: String)
    ensures
        r@ == request_text(string_views(paths@)),
{
    let ghost pv = string_views(paths@);
    let mut out = chars_of("RUSTTRACKER_IPC_V1");
    out.push('\n');
    let count = decimal_chars(paths.len());
    out = concat_chars(&out, &count);
    out.push('\n');
    let ghost head = out@;
    assert(pv.take(0) =~= Seq::<Seq<char>>::empty());
    for i in 0..paths.len()
        invariant
            pv == string_views(paths@),
            out@ == head + path_lines(pv.take(i as int)),
    {
        let p = chars_of(paths[i].as_str());
        proof {
            assert(pv.take(i + 1) =~= pv.take(i as int).push(p@));
            lemma_path_lines_push(pv.take(i as int), p@);
        }
        out = concat_chars(&out, &p);
        out.push('\n');
        assert(out@ =~= head + path_lines(pv.take(i + 1)));
    }
    assert(pv.take(paths.len() as int) == pv);
    assert(head =~= request_header() + seq!['\n'] + decimal(pv.len()) + seq!['\n']);
    string_of(&out)
}

/// The answer the running instance sends once it has taken the paths.
pub open spec fn ok_reply_text() -> Seq<char> {
    "OK\n"@
}

/// The answer the running instance sends once it has taken the paths.
pub fn ok_reply() -> (r: String)
    ensures
        r@ == ok_reply_text(),
{
    string_of(&chars_of("OK\n"))
}

/// Whether the answer `line` accepts the request: it is `OK` once trimmed.
pub open spec fn is_ok_reply_spec(line: Seq<char>) -> bool {
    trim(line) == "OK"@
}

/// Tests whether the running instance accepted the request.
pub fn is_ok_reply(line: &str) -> (r: bool)
    ensures
        r == is_ok_reply_spec(line@),
{
    chars_eq(&trim_chars(&chars_of(line)), &chars_of("OK"))
}


/// `s` without its trailing carriage returns and newlines
/// (`str::trim_end_matches(['\r', '\n'])`).
pub open spec fn trim_end_crlf(s: Seq<char>) -> Seq<char>
    decreases s.len(),
{
    if s.len() > 0 && (s.last() == '\r' || s.last() == '\n') {
        trim_end_crlf(s.drop_last())
    } else {
        s
    }
}

fn trim_end_crlf_chars(v: &Vec<char>) -> (r: Vec<char>)
    ensures
        r@ == trim_end_crlf(v@),
{
    let mut hi = v.len();
    assert(v@.take(hi as int) == v@);
    while hi > 0 && (v[hi - 1] == '\r' || v[hi - 1] == '\n')
        invariant
            hi <= v.len(),
            trim_end_crlf(v@) == trim_end_crlf(v@.take(hi as int)),
        decreases hi,
    {
        assert(v@.take(hi as int).drop_last() == v@.take(hi - 1));
        hi = hi - 1;
    }
    let r = crate::text::slice_chars(v, 0, hi);
    assert(r@ == v@.take(hi as int));
    r
}

/// Where the running instance is in reading one request.
#[derive(PartialEq, Eq, Structural, Clone, Copy, Debug)]
pub enum ReceiveStage {
    /// Waiting for the header line.
    Header,
    /// Waiting for the line that gives the number of paths.
    Count,
    /// Reading path lines; `remaining` of them are still to come.
    Paths,
    /// The request is complete: hand the paths over and answer `OK`.
    Complete,
    /// The request is not one of ours: drop the connection.
    Rejected,
}

/// The receiver's state, mathematically.
pub struct ReceiverModel {
    pub stage: ReceiveStage,
    pub remaining: int,
    pub received: Seq<Seq<char>>,
}

/// The receiver state with the given parts.
pub open spec fn model_of(stage: ReceiveStage, remaining: int, received: Seq<Seq<char>>) -> ReceiverModel {
    ReceiverModel { stage, remaining, received }
}

/// The state before the first line.
pub open spec fn initial_model() -> ReceiverModel {
    ReceiverModel { stage: ReceiveStage::Header, remaining: 0, received: seq![] }
}

/// What one line read does to the receiver. `line` is the text that one
/// `read_line` gave (with its newline, if any), or `None` when reading failed.
/// A bad header or a failed read before the count rejects the request; the
/// count (an unsigned decimal, 0 when unreadable) says how many path lines
/// follow; each path line loses its trailing `\r`/`\n` and is kept when
/// something is left of it; a failed read there uses up one line.
pub open spec fn receive_step(m: ReceiverModel, line: Option<Seq<char>>) -> ReceiverModel {
    match m.stage {
        ReceiveStage::Header => match line {
            Some(l) => if trim(l) == request_header() {
                ReceiverModel { stage: ReceiveStage::Count, remaining: 0, received: seq![] }
            } else {
                ReceiverModel { stage: ReceiveStage::Rejected, remaining: 0, received: seq![] }
            },
            None => ReceiverModel { stage: ReceiveStage::Rejected, remaining: 0, received: seq![] },
        },
        ReceiveStage::Count => match line {
            Some(l) => {
                let n: int = match parse_usize_spec(trim(l)) {
                    Some(n) => n as int,
                    None => 0,
                };
                if n == 0 {
                    ReceiverModel { stage: ReceiveStage::Complete, remaining: 0, received: seq![] }
                } else {
                    ReceiverModel { stage: ReceiveStage::Paths, remaining: n, received: seq![] }
                }
            },
            None => ReceiverModel { stage: ReceiveStage::Rejected, remaining: 0, received: seq![] },
        },
        ReceiveStage::Paths => {
            let rec = match line {
                Some(l) => if trim_end_crlf(l).len() > 0 {
                    m.received.push(trim_end_crlf(l))
                } else {
                    m.received
                },
                None => m.received,
            };
            if m.remaining <= 1 {
                ReceiverModel { stage: ReceiveStage::Complete, remaining: 0, received: rec }
            } else {
                ReceiverModel { stage: ReceiveStage::Paths, remaining: m.remaining - 1, received: rec }
            }
        },
        _ => m,
    }
}

/// The receiver after reading each of `lines` in turn.
pub open spec fn receive_all(m: ReceiverModel, lines: Seq<Seq<char>>) -> ReceiverModel
    decreases lines.len(),
{
    if lines.len() == 0 {
        m
    } else {
        receive_all(receive_step(m, Some(lines[0])), lines.drop_first())
    }
}

/// The running instance's side of one request: reads lines and collects the
/// forwarded paths.
pub struct IpcReceiver {
    pub stage: ReceiveStage,
    pub remaining: usize,
    pub received: Vec<String>,
}

/// The text of a line read, or `None` for a failed read.
pub open spec fn line_view(line: Option<&str>) -> Option<Seq<char>> {
    match line {
        Some(l) => Some(l@),
        None => None,
    }
}

impl IpcReceiver {
    /// The receiver's state, mathematically.
    pub open spec fn model(&self) -> ReceiverModel {
        ReceiverModel {
            stage: self.stage,
            remaining: self.remaining as int,
            received: string_views(self.received@),
        }
    }

    /// A receiver waiting for a request's header.
    pub fn new() -> (r: IpcReceiver)
        ensures
            r.model() == initial_model(),
    {
        let r = IpcReceiver { stage: ReceiveStage::Header, remaining: 0, received: Vec::new() };
        assert(r.model().received =~= Seq::<Seq<char>>::empty());
        r
    }

    /// Whether the request is complete or rejected, so that no more lines are read.
    pub fn is_finished(&self) -> (r: bool)
        ensures
            r == (self.stage == ReceiveStage::Complete || self.stage == ReceiveStage::Rejected),
    {
        self.stage == ReceiveStage::Complete || self.stage == ReceiveStage::Rejected
    }

    /// Takes one line read from the connection (`None` when reading failed).
    pub fn receive_line(&mut self, line: Option<&str>)
        ensures
            final(self).model() == receive_step(old(self).model(), line_view(line)),
    {
        match self.stage {
            ReceiveStage::Header => {
                let ok = match line {
                    Some(l) => chars_eq(&trim_chars(&chars_of(l)), &chars_of("RUSTTRACKER_IPC_V1")),
                    None => false,
                };
                self.stage = if ok {
                    ReceiveStage::Count
                } else {
                    ReceiveStage::Rejected
                };
                self.remaining = 0;
                self.received = Vec::new();
                assert(self.model().received =~= Seq::<Seq<char>>::empty());
            },
            ReceiveStage::Count => {
                match line {
                    Some(l) => {
                        let n = match parse_usize_chars(&trim_chars(&chars_of(l))) {
                            Some(n) => n,
                            None => 0,
                        };
                        self.stage = if n == 0 {
                            ReceiveStage::Complete
                        } else {
                            ReceiveStage::Paths
                        };
                        self.remaining = if n == 0 {
                            0
                        } else {
                            n
                        };
                    },
                    None => {
                        self.stage = ReceiveStage::Rejected;
                        self.remaining = 0;
                    },
                }
                self.received = Vec::new();
                assert(self.model().received =~= Seq::<Seq<char>>::empty());
            },
            ReceiveStage::Paths => {
                match line {
                    Some(l) => {
                        let t = trim_end_crlf_chars(&chars_of(l));
                        if t.len() > 0 {
                            let ghost before = self.received@;
                            self.received.push(string_of(&t));
                            assert(string_views(self.received@) =~= string_views(before).push(t@));
                        }
                    },
                    None => {},
                }
                if self.remaining <= 1 {
                    self.stage = ReceiveStage::Complete;
                    self.remaining = 0;
                } else {
                    self.remaining = self.remaining - 1;
                }
            },
            _ => {},
        }
    }
}


/// The texts that successive `read_line` calls give on a stream holding
/// `msg`: each piece up to and including a newline, then what is left.
pub open spec fn read_lines(msg: Seq<char>) -> Seq<Seq<char>>
    decreases msg.len(),
{
    if msg.len() == 0 {
        seq![]
    } else if find_char(msg, '\n') < 0 {
        seq![msg]
    } else {
        let k = find_char(msg, '\n');
        proof {
            crate::text::lemma_find_char(msg, '\n');
        }
        seq![msg.take(k + 1)] + read_lines(msg.skip(k + 1))
    }
}

/// A path that travels through the protocol unchanged: not empty, no
/// newline in it, and no carriage return at its end.
pub open spec fn clean_path(p: Seq<char>) -> bool {
    &&& p.len() > 0
    &&& forall|i: int| 0 <= i < p.len() ==> p[i] != '\n'
    &&& p.last() != '\r'
}

proof fn lemma_read_lines_cons(a: Seq<char>, rest: Seq<char>)
    requires
        forall|i: int| 0 <= i < a.len() ==> a[i] != '\n',
    ensures
        read_lines(a + seq!['\n'] + rest) == seq![a + seq!['\n']] + read_lines(rest),
{
    let m = a + seq!['\n'] + rest;
    assert forall|i: int| 0 <= i < a.len() implies m[i] != '\n' by {
        assert(m[i] == a[i]);
    }
    assert(m[a.len() as int] == '\n');
    lemma_find_char_at(m, '\n', a.len() as int);
    assert(m.take(a.len() as int + 1) =~= a + seq!['\n']);
    assert(m.skip(a.len() as int + 1) =~= rest);
}

proof fn lemma_receive_cons(m: ReceiverModel, l: Seq<char>, rest: Seq<Seq<char>>)
    ensures
        receive_all(m, seq![l] + rest) == receive_all(receive_step(m, Some(l)), rest),
{
    let ls = seq![l] + rest;
    assert(ls[0] == l);
    assert(ls.drop_first() =~= rest);
}

proof fn lemma_trim_end_crlf_clean(p: Seq<char>)
    requires
        clean_path(p),
    ensures
        trim_end_crlf(p + seq!['\n']) == p,
{
    let q = p + seq!['\n'];
    assert(q.drop_last() =~= p);
    assert(q.last() == '\n');
    assert(trim_end_crlf(q) == trim_end_crlf(p));
    assert(p[p.len() - 1] != '\n');
    assert(trim_end_crlf(p) == p);
}

proof fn lemma_receive_paths(ps: Seq<Seq<char>>, acc: Seq<Seq<char>>)
    requires
        ps.len() >= 1,
        forall|i: int| 0 <= i < ps.len() ==> clean_path(#[trigger] ps[i]),
    ensures
        receive_all(model_of(ReceiveStage::Paths, ps.len() as int, acc), read_lines(path_lines(ps)))
            == model_of(ReceiveStage::Complete, 0, acc + ps),
    decreases ps.len(),
{
    let p = ps[0];
    let rest = ps.drop_first();
    assert(clean_path(p));
    assert(path_lines(ps) == p + seq!['\n'] + path_lines(rest));
    lemma_read_lines_cons(p, path_lines(rest));
    let m = ReceiverModel { stage: ReceiveStage::Paths, remaining: ps.len() as int, received: acc };
    lemma_receive_cons(m, p + seq!['\n'], read_lines(path_lines(rest)));
    lemma_trim_end_crlf_clean(p);
    let m2 = receive_step(m, Some(p + seq!['\n']));
    assert(m2.received == acc.push(p));
    if ps.len() == 1 {
        assert(rest.len() == 0);
        assert(path_lines(rest) == Seq::<char>::empty());
        assert(read_lines(path_lines(rest)) == Seq::<Seq<char>>::empty());
        assert(acc + ps =~= acc.push(p));
    } else {
        assert forall|i: int| 0 <= i < rest.len() implies clean_path(#[trigger] rest[i]) by {
            assert(rest[i] == ps[i + 1]);
        }
        lemma_receive_paths(rest, acc.push(p));
        assert(acc.push(p) + rest =~= acc + ps);
    }
}

proof fn lemma_digit_char(d: int)
    requires
        0 <= d < 10,
    ensures
        is_digit(digit_char(d)),
        digit_value(digit_char(d)) == d,
        !is_ws(digit_char(d)),
        digit_char(d) != '\n',
        digit_char(d) != '+',
{
}

proof fn lemma_decimal(n: nat)
    ensures
        decimal(n).len() > 0,
        all_digits(decimal(n)),
        digits_value(decimal(n)) == n,
        forall|i: int| 0 <= i < decimal(n).len() ==> !is_ws(#[trigger] decimal(n)[i]) && decimal(n)[i]
            != '\n' && decimal(n)[i] != '+',
    decreases n,
{
    if n < 10 {
        lemma_digit_char(n as int);
        let d = decimal(n);
        assert(d.drop_last() =~= Seq::<char>::empty());
        assert(digits_value(d) == digits_value(d.drop_last()) * 10 + digit_value(d.last()));
    } else {
        lemma_decimal(n / 10);
        lemma_digit_char((n % 10) as int);
        let d = decimal(n);
        assert(d.drop_last() =~= decimal(n / 10));
        assert(d.last() == digit_char((n % 10) as int));
        assert(digits_value(d) == digits_value(d.drop_last()) * 10 + digit_value(d.last()));
        assert(n == (n / 10) * 10 + n % 10);
        assert forall|i: int| 0 <= i < d.len() implies is_digit(#[trigger] d[i]) && !is_ws(d[i])
            && d[i] != '\n' && d[i] != '+' by {
            if i < d.len() - 1 {
                assert(d[i] == decimal(n / 10)[i]);
            }
        }
    }
}

proof fn lemma_trim_plain(a: Seq<char>)
    requires
        a.len() > 0,
        !is_ws(a[0]),
        !is_ws(a.last()),
    ensures
        trim(a + seq!['\n']) == a,
{
    let q = a + seq!['\n'];
    assert(q[0] == a[0]);
    assert(trim_start(q) == q);
    assert(q.drop_last() =~= a);
    assert(is_ws('\n'));
    assert(trim_end(q) == trim_end(a));
}

/// The paths that the path lines `ls` deliver: each without its trailing
/// `\r`/`\n`, the empty ones left out, in order.
pub open spec fn delivered_paths(ls: Seq<Seq<char>>) -> Seq<Seq<char>>
    decreases ls.len(),
{
    if ls.len() == 0 {
        seq![]
    } else if trim_end_crlf(ls[0]).len() > 0 {
        seq![trim_end_crlf(ls[0])] + delivered_paths(ls.drop_first())
    } else {
        delivered_paths(ls.drop_first())
    }
}

/// The number of path lines that the count line `l` announces (0 when it is
/// not an unsigned decimal).
pub open spec fn announced_count(l: Seq<char>) -> int {
    match parse_usize_spec(trim(l)) {
        Some(n) => n as int,
        None => 0,
    }
}

/// A whole request session, line by line: after a header line and a count
/// line come as many path lines as announced, then anything. With the right
/// header the request is complete and delivers the path lines' paths (see
/// `delivered_paths`), whatever follows; with any other header it is
/// rejected and delivers nothing, whatever follows.
pub proof fn law_ipc_session(
    header: Seq<char>,
    count: Seq<char>,
    ls: Seq<Seq<char>>,
    after: Seq<Seq<char>>,
)
    requires
        ls.len() == announced_count(count),
    ensures
        trim(header) == request_header() ==> receive_all(initial_model(), seq![header, count] + ls + after)
            == model_of(ReceiveStage::Complete, 0, delivered_paths(ls)),
        trim(header) != request_header() ==> receive_all(initial_model(), seq![header] + (seq![count] + ls + after))
            == model_of(ReceiveStage::Rejected, 0, seq![]),
{
    let m0 = initial_model();
    if trim(header) == request_header() {
        assert(seq![header, count] + ls + after =~= seq![header] + (seq![count] + (ls + after)));
        lemma_receive_cons(m0, header, seq![count] + (ls + after));
        let m1 = receive_step(m0, Some(header));
        lemma_receive_cons(m1, count, ls + after);
        let m2 = receive_step(m1, Some(count));
        if ls.len() == 0 {
            assert(ls + after =~= after);
            lemma_finished_stays(m2, after);
            assert(delivered_paths(ls) == Seq::<Seq<char>>::empty());
        } else {
            lemma_paths_phase(ls, after, seq![]);
            assert(Seq::<Seq<char>>::empty() + delivered_paths(ls) =~= delivered_paths(ls));
        }
    } else {
        lemma_receive_cons(m0, header, seq![count] + ls + after);
        lemma_finished_stays(receive_step(m0, Some(header)), seq![count] + ls + after);
    }
}

proof fn lemma_finished_stays(m: ReceiverModel, ls: Seq<Seq<char>>)
    requires
        m.stage == ReceiveStage::Complete || m.stage == ReceiveStage::Rejected,
    ensures
        receive_all(m, ls) == m,
    decreases ls.len(),
{
    if ls.len() > 0 {
        lemma_finished_stays(receive_step(m, Some(ls[0])), ls.drop_first());
    }
}

proof fn lemma_paths_phase(ls: Seq<Seq<char>>, after: Seq<Seq<char>>, acc: Seq<Seq<char>>)
    requires
        ls.len() >= 1,
    ensures
        receive_all(model_of(ReceiveStage::Paths, ls.len() as int, acc), ls + after) == model_of(
            ReceiveStage::Complete,
            0,
            acc + delivered_paths(ls),
        ),
    decreases ls.len(),
{
    let m = model_of(ReceiveStage::Paths, ls.len() as int, acc);
    let rest = ls.drop_first();
    assert(ls + after =~= seq![ls[0]] + (rest + after));
    lemma_receive_cons(m, ls[0], rest + after);
    let m2 = receive_step(m, Some(ls[0]));
    let acc2 = if trim_end_crlf(ls[0]).len() > 0 {
        acc.push(trim_end_crlf(ls[0]))
    } else {
        acc
    };
    assert(acc + delivered_paths(ls) =~= acc2 + delivered_paths(rest));
    if ls.len() == 1 {
        assert(rest + after =~= after);
        lemma_finished_stays(m2, after);
        assert(delivered_paths(rest) == Seq::<Seq<char>>::empty());
        assert(acc2 + delivered_paths(rest) =~= acc2);
    } else {
        lemma_paths_phase(rest, after, acc2);
    }
}

/// A request carries its paths intact: when the running instance reads the
/// lines of the request that forwards `paths`, where no path is empty, holds
/// a newline or ends in a carriage return, it completes the request holding
/// exactly `paths`, in order.
pub proof fn law_forwarded_paths_arrive(paths: Seq<Seq<char>>)
    requires
        paths.len() <= usize::MAX,
        forall|i: int| 0 <= i < paths.len() ==> clean_path(#[trigger] paths[i]),
    ensures
        receive_all(initial_model(), read_lines(request_text(paths))) == model_of(
            ReceiveStage::Complete,
            0,
            paths,
        ),
{
    reveal_strlit("RUSTTRACKER_IPC_V1");
    let h = request_header();
    let d = decimal(paths.len());
    lemma_decimal(paths.len());
    let body = path_lines(paths);
    assert(request_text(paths) =~= h + seq!['\n'] + (d + seq!['\n'] + body));
    assert forall|i: int| 0 <= i < h.len() implies h[i] != '\n' by {}
    lemma_read_lines_cons(h, d + seq!['\n'] + body);
    lemma_read_lines_cons(d, body);
    let m0 = initial_model();
    lemma_receive_cons(m0, h + seq!['\n'], seq![d + seq!['\n']] + read_lines(body));
    lemma_trim_plain(h);
    let m1 = receive_step(m0, Some(h + seq!['\n']));
    assert(m1 == ReceiverModel { stage: ReceiveStage::Count, remaining: 0, received: seq![] });
    lemma_receive_cons(m1, d + seq!['\n'], read_lines(body));
    lemma_trim_plain(d);
    assert(unsigned_digits(d) == d);
    assert(parse_usize_spec(trim(d + seq!['\n'])) == Some(paths.len() as usize));
    let m2 = receive_step(m1, Some(d + seq!['\n']));
    if paths.len() == 0 {
        assert(body == Seq::<char>::empty());
        assert(read_lines(body) == Seq::<Seq<char>>::empty());
        assert(paths =~= Seq::<Seq<char>>::empty());
    } else {
        assert(m2 == ReceiverModel {
            stage: ReceiveStage::Paths,
            remaining: paths.len() as int,
            received: seq![],
        });
        lemma_receive_paths(paths, seq![]);
        assert(Seq::<Seq<char>>::empty() + paths =~= paths);
    }
}


/// The running instance's answer is one that the forwarding side accepts.
pub proof fn law_ok_reply_accepted()
    ensures
        is_ok_reply_spec(ok_reply_text()),
{
    reveal_strlit("OK\n");
    reveal_strlit("OK");
    lemma_trim_plain("OK"@);
    assert(ok_reply_text() =~= "OK"@ + seq!['\n']);
}

} // verus!
