//! Length-prefixed message framing: `Content-Length: <n>\r\n\r\n<n bytes>`.
//!
//! Decoding works on a buffered prefix of the inbound stream and reports,
//! besides a complete message, the distinguishable conditions "more bytes
//! needed", "stream ended", and "headers ended without a usable
//! `Content-Length`".

use vstd::prelude::*;

verus! {

pub const CR: u8 = 13;

pub const LF: u8 = 10;

pub const COLON: u8 = 58;

/// Index of the first occurrence of `b` in `s`.
pub open spec fn find_b(s: Seq<u8>, b: u8) -> Option<int>
    decreases s.len(),
{
    if s.len() == 0 {
        None
    } else if s[0] == b {
        Some(0)
    } else {
        match find_b(s.skip(1), b) {
            None => None,
            Some(i) => Some(i + 1),
        }
    }
}

pub proof fn lemma_find_b(s: Seq<u8>, b: u8)
    ensures
        match find_b(s, b) {
            Some(k) => 0 <= k < s.len() && s[k] == b && forall|j: int| 0 <= j < k ==> s[j] != b,
            None => forall|j: int| 0 <= j < s.len() ==> s[j] != b,
        },
    decreases s.len(),
{
    if s.len() > 0 && s[0] != b {
        lemma_find_b(s.skip(1), b);
        assert(forall|j: int| 0 <= j < s.len() - 1 ==> #[trigger] s.skip(1)[j] == s[j + 1]);
        match find_b(s.skip(1), b) {
            None => {
                assert forall|j: int| 0 <= j < s.len() implies s[j] != b by {
                    if j > 0 {
                        assert(s.skip(1)[j - 1] == s[j]);
                    }
                }
            },
            Some(k) => {
                assert(s[k + 1] == s.skip(1)[k]);
                assert forall|j: int| 0 <= j < k + 1 implies s[j] != b by {
                    if j > 0 {
                        assert(s.skip(1)[j - 1] == s[j]);
                    }
                }
            },
        }
    }
}

/// If `b` first appears at `k`, then the scan finds exactly `k`.
pub proof fn lemma_find_b_is(s: Seq<u8>, b: u8, k: int)
    requires
        0 <= k < s.len(),
        s[k] == b,
        forall|j: int| 0 <= j < k ==> s[j] != b,
    ensures
        find_b(s, b) == Some(k),
{
    lemma_find_b(s, b);
}

pub open spec fn is_ws(b: u8) -> bool {
    b == 9 || b == 10 || b == 11 || b == 12 || b == 13 || b == 32
}

pub open spec fn trim_back(s: Seq<u8>) -> Seq<u8>
    decreases s.len(),
{
    if s.len() > 0 && is_ws(s.last()) {
        trim_back(s.drop_last())
    } else {
        s
    }
}

pub open spec fn trim_front(s: Seq<u8>) -> Seq<u8>
    decreases s.len(),
{
    if s.len() > 0 && is_ws(s[0]) {
        trim_front(s.skip(1))
    } else {
        s
    }
}

pub open spec fn trim_ws(s: Seq<u8>) -> Seq<u8> {
    trim_front(trim_back(s))
}

pub proof fn lemma_trim_back(s: Seq<u8>)
    ensures
        ({
            let t = trim_back(s);
            &&& t.len() <= s.len()
            &&& t == s.take(t.len() as int)
            &&& forall|j: int| t.len() <= j < s.len() ==> is_ws(s[j])
            &&& (t.len() > 0 ==> !is_ws(s[t.len() - 1]))
        }),
    decreases s.len(),
{
    if s.len() > 0 && is_ws(s.last()) {
        lemma_trim_back(s.drop_last());
        let t = trim_back(s);
        assert(forall|k: int|
            0 <= k < s.len() - 1 ==> #[trigger] s.drop_last()[k] == s[k]);
        assert(s.drop_last().take(t.len() as int) =~= s.take(t.len() as int));
        assert forall|j: int| t.len() <= j < s.len() implies is_ws(s[j]) by {
            if j < s.len() - 1 {
                assert(is_ws(s.drop_last()[j]));
            }
        }
        if t.len() > 0 {
            assert(s.drop_last()[t.len() - 1] == s[t.len() - 1]);
        }
    } else {
        assert(s.take(s.len() as int) =~= s);
    }
}

pub proof fn lemma_trim_front(s: Seq<u8>)
    ensures
        ({
            let t = trim_front(s);
            &&& t.len() <= s.len()
            &&& t == s.skip(s.len() - t.len())
            &&& forall|j: int| 0 <= j < s.len() - t.len() ==> is_ws(s[j])
            &&& (t.len() > 0 ==> !is_ws(s[s.len() - t.len()]))
        }),
    decreases s.len(),
{
    if s.len() > 0 && is_ws(s[0]) {
        lemma_trim_front(s.skip(1));
        let t = trim_front(s);
        assert(forall|k: int| 0 <= k < s.len() - 1 ==> #[trigger] s.skip(1)[k] == s[k + 1]);
        assert(s.skip(1).skip(s.skip(1).len() - t.len()) =~= s.skip(s.len() - t.len()));
        assert forall|j: int| 0 <= j < s.len() - t.len() implies is_ws(s[j]) by {
            if j > 0 {
                assert(is_ws(s.skip(1)[j - 1]));
            }
        }
        if t.len() > 0 {
            assert(s.skip(1)[s.skip(1).len() - t.len()] == s[s.len() - t.len()]);
        }
    } else {
        assert(s.skip(0) =~= s);
    }
}

pub open spec fn is_digit(b: u8) -> bool {
    48 <= b <= 57
}

pub open spec fn all_digits(s: Seq<u8>) -> bool {
    forall|j: int| 0 <= j < s.len() ==> is_digit(s[j])
}

/// Value of a digit string, most significant digit first.
pub open spec fn dec_value(s: Seq<u8>) -> nat
    decreases s.len(),
{
    if s.len() == 0 {
        0
    } else {
        (dec_value(s.drop_last()) * 10 + (s.last() - 48)) as nat
    }
}

pub proof fn lemma_dec_value_prefix_le(s: Seq<u8>, i: int)
    requires
        0 <= i <= s.len(),
        all_digits(s),
    ensures
        dec_value(s.take(i)) <= dec_value(s),
    decreases s.len() - i,
{
    if i < s.len() {
        lemma_dec_value_prefix_le(s, i + 1);
        assert(s.take(i + 1).drop_last() =~= s.take(i));
        assert(dec_value(s.take(i + 1)) == dec_value(s.take(i)) * 10 + (s[i] - 48));
        assert(dec_value(s.take(i)) * 10 >= dec_value(s.take(i)));
    } else {
        assert(s.take(i) =~= s);
    }
}

/// The value accepted by a decimal `usize` parse: optional leading `+`,
/// then at least one digit, with the result within `usize` range.
pub open spec fn parse_core(s: Seq<u8>) -> Option<usize> {
    if s.len() > 0 && all_digits(s) && dec_value(s) <= usize::MAX {
        Some(dec_value(s) as usize)
    } else {
        None
    }
}

pub open spec fn parse_len(s: Seq<u8>) -> Option<usize> {
    if s.len() > 0 && s[0] == 43 {
        parse_core(s.skip(1))
    } else {
        parse_core(s)
    }
}

pub open spec fn lower_b(b: u8) -> u8 {
    if 65 <= b <= 90 {
        (b + 32) as u8
    } else {
        b
    }
}

/// ASCII-case-insensitive equality of byte strings.
pub open spec fn ci_eq(a: Seq<u8>, b: Seq<u8>) -> bool {
    a.len() == b.len() && forall|i: int| 0 <= i < a.len() ==> lower_b(a[i]) == lower_b(b[i])
}

/// The lower-case header name whose value carries the body length.
pub open spec fn cl_label() -> Seq<u8> {
    seq![99u8, 111, 110, 116, 101, 110, 116, 45, 108, 101, 110, 103, 116, 104]
}

/// Effect of one header line on the remembered length: a line whose key
/// matches the length header replaces it with the parse of its trimmed
/// value; every other line leaves it unchanged.
pub open spec fn line_cl_update(line: Seq<u8>, cl: Option<usize>) -> Option<usize> {
    match find_b(line, COLON) {
        None => cl,
        Some(c) => if ci_eq(line.take(c), cl_label()) {
            parse_len(trim_ws(line.skip(c + 1)))
        } else {
            cl
        },
    }
}

pub enum ScanState {
    Incomplete,
    MissingLength,
    Ready { len: usize, body_start: usize },
}

/// Header scan from offset `off`: consume one `\n`-terminated line at a
/// time until the blank `\r\n` line, tracking the last length header seen.
pub open spec fn scan_from(bytes: Seq<u8>, cl: Option<usize>, off: int) -> ScanState
    decreases bytes.len() - off,
    when 0 <= off <= bytes.len()
    via scan_from_dec
{
    match find_b(bytes.skip(off), LF) {
        None => ScanState::Incomplete,
        Some(k) => {
            if k == 1 && bytes[off] == CR {
                match cl {
                    None => ScanState::MissingLength,
                    Some(n) => ScanState::Ready { len: n, body_start: (off + k + 1) as usize },
                }
            } else {
                scan_from(
                    bytes,
                    line_cl_update(bytes.subrange(off, off + k + 1), cl),
                    off + k + 1,
                )
            }
        },
    }
}

#[via_fn]
proof fn scan_from_dec(bytes: Seq<u8>, cl: Option<usize>, off: int) {
    lemma_find_b(bytes.skip(off), LF);
}

/// The scan at the start of the whole buffer.
pub open spec fn scan_frame(bytes: Seq<u8>) -> ScanState {
    scan_from(bytes, None, 0)
}

#[derive(Debug, PartialEq, Eq)]
pub enum DecodeOutcome {
    /// One whole message: its body, and how many buffered bytes it used.
    Message { body: Vec<u8>, consumed: usize },
    /// The buffer holds no complete frame yet.
    NeedMore,
    /// The stream ended before a complete frame.
    EndOfStream,
    /// Headers ended without a usable length header.
    HeaderError,
}

/// What `decode_frame` returns for a buffer, given whether the stream has
/// ended.
pub open spec fn decode_post(bytes: Seq<u8>, eof: bool, r: DecodeOutcome) -> bool {
    match scan_frame(bytes) {
        ScanState::Incomplete => r == (if eof {
            DecodeOutcome::EndOfStream
        } else {
            DecodeOutcome::NeedMore
        }),
        ScanState::MissingLength => r == DecodeOutcome::HeaderError,
        ScanState::Ready { len, body_start } => {
            if body_start + len <= bytes.len() {
                match r {
                    DecodeOutcome::Message { body, consumed } => {
                        &&& body@ == bytes.subrange(body_start as int, body_start + len)
                        &&& consumed == body_start + len
                    },
                    _ => false,
                }
            } else {
                r == (if eof {
                    DecodeOutcome::EndOfStream
                } else {
                    DecodeOutcome::NeedMore
                })
            }
        },
    }
}

fn find_lf(buf: &Vec<u8>, from: usize) -> (r: Option<usize>)
    requires
        from <= buf@.len(),
    ensures
        match r {
            Some(i) => from <= i < buf@.len() && buf@[i as int] == LF && find_b(
                buf@.skip(from as int),
                LF,
            ) == Some(i - from),
            None => find_b(buf@.skip(from as int), LF) is None,
        },
{
    let mut i: usize = from;
    while i < buf.len()
        invariant
            from <= i <= buf@.len(),
            forall|j: int| from <= j < i ==> buf@[j] != LF,
        decreases buf@.len() - i,
    {
        if buf[i] == LF {
            proof {
                lemma_find_b_is(buf@.skip(from as int), LF, i - from);
            }
            return Some(i);
        }
        i = i + 1;
    }
    proof {
        lemma_find_b(buf@.skip(from as int), LF);
    }
    None
}

fn is_ws_byte(b: u8) -> (r: bool)
    ensures
        r == is_ws(b),
{
    b == 9 || b == 10 || b == 11 || b == 12 || b == 13 || b == 32
}

fn lower_byte(b: u8) -> (r: u8)
    ensures
        r == lower_b(b),
{
    if 65 <= b && b <= 90 {
        b + 32
    } else {
        b
    }
}

fn cl_label_byte(j: usize) -> (r: u8)
    requires
        j < 14,
    ensures
        r == cl_label()[j as int],
{
    if j == 0 {
        99
    } else if j == 1 {
        111
    } else if j == 2 {
        110
    } else if j == 3 {
        116
    } else if j == 4 {
        101
    } else if j == 5 {
        110
    } else if j == 6 {
        116
    } else if j == 7 {
        45
    } else if j == 8 {
        108
    } else if j == 9 {
        101
    } else if j == 10 {
        110
    } else if j == 11 {
        103
    } else if j == 12 {
        116
    } else {
        104
    }
}

fn parse_len_at(buf: &Vec<u8>, ts: usize, te: usize) -> (r: Option<usize>)
    requires
        ts <= te <= buf@.len(),
    ensures
        r == parse_len(buf@.subrange(ts as int, te as int)),
{
    let ghost v = buf@.subrange(ts as int, te as int);
    let mut i: usize = ts;
    if i < te && buf[i] == 43 {
        i = i + 1;
    }
    let ghost d = v.skip(i - ts);
    proof {
        if ts < te && v[0] == 43 {
            assert(v.skip(1) =~= d);
        } else {
            assert(v.skip(0) =~= v);
        }
        assert(parse_len(v) == parse_core(d));
    }
    if i == te {
        return None;
    }
    let ghost d0 = i as int;
    let mut acc: usize = 0;
    while i < te
        invariant
            ts <= d0 <= i <= te <= buf@.len(),
            parse_len(buf@.subrange(ts as int, te as int)) == parse_core(d),
            d == buf@.subrange(ts as int, te as int).skip(d0 - ts),
            d.len() == te - d0,
            forall|j: int| 0 <= j < i - d0 ==> is_digit(d[j]),
            acc == dec_value(d.take(i - d0)),
        decreases te - i,
    {
        let b = buf[i];
        proof {
            assert(d[i - d0] == buf@[i as int]);
        }
        if !(48 <= b && b <= 57) {
            proof {
                assert(!is_digit(d[i - d0]));
                assert(!all_digits(d));
            }
            return None;
        }
        let dig: usize = (b - 48) as usize;
        proof {
            assert(d.take(i - d0 + 1).drop_last() =~= d.take(i - d0));
            assert(dec_value(d.take(i - d0 + 1)) == dec_value(d.take(i - d0)) * 10 + (d[i - d0]
                - 48));
        }
        if acc > (usize::MAX - dig) / 10 {
            proof {
                assert(acc * 10 + dig > usize::MAX) by (nonlinear_arith)
                    requires
                        acc > (usize::MAX - dig) / 10,
                        dig <= 9,
                ;
                if all_digits(d) {
                    lemma_dec_value_prefix_le(d, i - d0 + 1);
                    assert(dec_value(d) > usize::MAX);
                }
            }
            return None;
        }
        proof {
            assert(acc * 10 + dig <= usize::MAX) by (nonlinear_arith)
                requires
                    acc <= (usize::MAX - dig) / 10,
                    dig <= 9,
            ;
        }
        acc = acc * 10 + dig;
        i = i + 1;
    }
    proof {
        assert(d.take(i - d0) =~= d);
        assert(all_digits(d));
    }
    Some(acc)
}

fn find_colon(buf: &Vec<u8>, off: usize, nl: usize) -> (r: Option<usize>)
    requires
        off <= nl < buf@.len(),
    ensures
        match r {
            Some(cc) => off <= cc <= nl && buf@[cc as int] == COLON && forall|j: int|
                off <= j < cc ==> buf@[j] != COLON,
            None => forall|j: int| off <= j <= nl ==> buf@[j] != COLON,
        },
{
    let blen: usize = buf.len();
    let mut c: usize = off;
    while c <= nl
        invariant
            off <= c <= nl + 1,
            nl < blen,
            blen == buf@.len(),
            forall|j: int| off <= j < c ==> buf@[j] != COLON,
        decreases nl + 1 - c,
    {
        if buf[c] == COLON {
            return Some(c);
        }
        c = c + 1;
    }
    None
}

/// ASCII-case-insensitive comparison of a key range against the length label.
fn key_is_cl(buf: &Vec<u8>, off: usize, cc: usize) -> (r: bool)
    requires
        off <= cc <= buf@.len(),
    ensures
        r == ci_eq(buf@.subrange(off as int, cc as int), cl_label()),
{
    if cc - off != 14 {
        proof {
            assert(buf@.subrange(off as int, cc as int).len() != cl_label().len());
        }
        return false;
    }
    let mut j: usize = 0;
    while j < 14
        invariant
            j <= 14,
            off + 14 == cc <= buf@.len(),
            forall|k: int| 0 <= k < j ==> lower_b(buf@[off + k]) == lower_b(cl_label()[k]),
        decreases 14 - j,
    {
        if lower_byte(buf[off + j]) != lower_byte(cl_label_byte(j)) {
            proof {
                assert(buf@.subrange(off as int, cc as int)[j as int] == buf@[off + j]);
            }
            return false;
        }
        j = j + 1;
    }
    proof {
        assert(forall|k: int|
            0 <= k < 14 ==> #[trigger] buf@.subrange(off as int, cc as int)[k] == buf@[off + k]);
    }
    true
}

/// Bounds of the whitespace-trimmed part of `buf[vstart..vend]`.
fn trim_bounds(buf: &Vec<u8>, vstart: usize, vend: usize) -> (r: (usize, usize))
    requires
        vstart <= vend <= buf@.len(),
    ensures
        ({
            let (ts, te) = r;
            &&& vstart <= ts <= te <= vend
            &&& trim_ws(buf@.subrange(vstart as int, vend as int)) == buf@.subrange(
                ts as int,
                te as int,
            )
        }),
{
    let ghost value = buf@.subrange(vstart as int, vend as int);
    let mut te: usize = vend;
    while te > vstart && is_ws_byte(buf[te - 1])
        invariant
            vstart <= te <= vend <= buf@.len(),
            forall|k: int| te <= k < vend ==> is_ws(buf@[k]),
        decreases te,
    {
        te = te - 1;
    }
    let mut ts: usize = vstart;
    while ts < te && is_ws_byte(buf[ts])
        invariant
            vstart <= ts <= te <= vend <= buf@.len(),
            forall|k: int| vstart <= k < ts ==> is_ws(buf@[k]),
        decreases te - ts,
    {
        ts = ts + 1;
    }
    proof {
        assert(forall|k: int| 0 <= k < value.len() ==> #[trigger] value[k] == buf@[vstart + k]);
        lemma_trim_back(value);
        let tb = trim_back(value);
        // the trailing-whitespace cut is unique, so tb ends exactly at te
        if tb.len() < te - vstart {
            assert(is_ws(value[te - vstart - 1]));
            assert(false);
        }
        if tb.len() > te - vstart {
            assert(!is_ws(value[tb.len() - 1]));
            assert(false);
        }
        assert(tb =~= buf@.subrange(vstart as int, te as int));
        lemma_trim_front(tb);
        let tf = trim_front(tb);
        assert(forall|k: int| 0 <= k < tb.len() ==> #[trigger] tb[k] == buf@[vstart + k]);
        if tb.len() - tf.len() < ts - vstart {
            assert(!is_ws(tb[tb.len() - tf.len()]));
            assert(is_ws(buf@[vstart + (tb.len() - tf.len())]));
            assert(false);
        }
        if tb.len() - tf.len() > ts - vstart {
            assert(is_ws(tb[ts - vstart]));
            assert(!is_ws(buf@[ts as int]));
            assert(false);
        }
        assert(tf =~= buf@.subrange(ts as int, te as int));
    }
    (ts, te)
}

/// Apply one non-blank header line to the remembered length.
fn line_update(buf: &Vec<u8>, off: usize, nl: usize, cl: Option<usize>) -> (r: Option<usize>)
    requires
        off <= nl < buf@.len(),
        buf@[nl as int] == LF,
    ensures
        r == line_cl_update(buf@.subrange(off as int, nl + 1), cl),
{
    let blen: usize = buf.len();
    let ghost line = buf@.subrange(off as int, nl + 1);
    proof {
        assert(forall|k: int| 0 <= k < line.len() ==> #[trigger] line[k] == buf@[off + k]);
    }
    match find_colon(buf, off, nl) {
        None => {
            proof {
                lemma_find_b(line, COLON);
                if find_b(line, COLON) is Some {
                    let k = find_b(line, COLON)->Some_0;
                    assert(line[k] == buf@[off + k]);
                }
            }
            cl
        },
        Some(cc) => {
            proof {
                lemma_find_b_is(line, COLON, cc - off);
                assert(line.take(cc - off) =~= buf@.subrange(off as int, cc as int));
            }
            if key_is_cl(buf, off, cc) {
                let (ts, te) = trim_bounds(buf, cc + 1, nl + 1);
                proof {
                    assert(line.skip(cc - off + 1) =~= buf@.subrange(cc + 1, nl + 1));
                }
                parse_len_at(buf, ts, te)
            } else {
                cl
            }
        },
    }
}

/// Try to take one complete frame off the front of the buffered bytes.
pub fn decode_frame(buf: &Vec<u8>, eof: bool) -> (r: DecodeOutcome)
    ensures
        decode_post(buf@, eof, r),
{
    let blen: usize = buf.len();
    let mut off: usize = 0;
    let mut cl: Option<usize> = None;
    loop
        invariant
            off <= blen,
            blen == buf@.len(),
            scan_from(buf@, cl, off as int) == scan_frame(buf@),
        decreases buf@.len() - off,
    {
        match find_lf(buf, off) {
            None => {
                if eof {
                    return DecodeOutcome::EndOfStream;
                }
                return DecodeOutcome::NeedMore;
            },
            Some(nl) => {
                if nl == off + 1 && buf[off] == CR {
                    // blank line: headers are over
                    match cl {
                        None => {
                            return DecodeOutcome::HeaderError;
                        },
                        Some(n) => {
                            let body_start = nl + 1;
                            if n <= buf.len() - body_start {
                                let frame_end: usize = body_start + n;
                                let mut body: Vec<u8> = Vec::new();
                                let mut i: usize = body_start;
                                while i < frame_end
                                    invariant
                                        body_start <= i <= frame_end,
                                        frame_end == body_start + n,
                                        frame_end <= buf@.len(),
                                        body@ == buf@.subrange(body_start as int, i as int),
                                    decreases frame_end - i,
                                {
                                    let b = buf[i];
                                    body.push(b);
                                    proof {
                                        assert(body@ =~= buf@.subrange(
                                            body_start as int,
                                            i + 1,
                                        ));
                                    }
                                    i = i + 1;
                                }
                                return DecodeOutcome::Message { body, consumed: frame_end };
                            } else {
                                if eof {
                                    return DecodeOutcome::EndOfStream;
                                }
                                return DecodeOutcome::NeedMore;
                            }
                        },
                    }
                } else {
                    let cl2 = line_update(buf, off, nl, cl);
                    proof {
                        assert(buf@.subrange(off as int, nl + 1) =~= buf@.subrange(
                            off as int,
                            off + (nl - off) + 1,
                        ));
                    }
                    cl = cl2;
                    off = nl + 1;
                }
            },
        }
    }
}

/// Digits of `n`, most significant first.
pub open spec fn dec_digits(n: nat) -> Seq<u8>
    decreases n,
{
    if n < 10 {
        seq![(48 + n) as u8]
    } else {
        dec_digits(n / 10) + seq![(48 + n % 10) as u8]
    }
}

pub proof fn lemma_dec_digits_are_digits(n: nat)
    ensures
        dec_digits(n).len() >= 1,
        all_digits(dec_digits(n)),
    decreases n,
{
    if n >= 10 {
        lemma_dec_digits_are_digits(n / 10);
        assert(n % 10 < 10) by (nonlinear_arith);
        assert forall|j: int| 0 <= j < dec_digits(n).len() implies is_digit(dec_digits(n)[j]) by {
            if j < dec_digits(n / 10).len() {
                assert(dec_digits(n)[j] == dec_digits(n / 10)[j]);
            }
        }
    } else {
        assert(is_digit(dec_digits(n)[0]));
    }
}

pub proof fn lemma_dec_value_of_digits(n: nat)
    ensures
        dec_value(dec_digits(n)) == n,
    decreases n,
{
    if n < 10 {
        let s = dec_digits(n);
        assert(s == seq![(48 + n) as u8]);
        assert(s.len() == 1);
        assert(s.drop_last() =~= Seq::<u8>::empty());
        assert(dec_value(Seq::<u8>::empty()) == 0);
        assert(dec_value(s) == (dec_value(s.drop_last()) * 10 + (s.last() - 48)) as nat);
        assert((48 + n) as u8 == 48 + n);
        assert(s.last() == (48 + n) as u8);
        assert(dec_value(s) == n);
    } else {
        assert(n / 10 < n && n / 10 >= 1 && n % 10 < 10 && n == (n / 10) * 10 + n % 10)
            by (nonlinear_arith)
            requires
                n >= 10,
        ;
        lemma_dec_value_of_digits(n / 10);
        assert(dec_digits(n).drop_last() =~= dec_digits(n / 10));
        assert(dec_value(dec_digits(n)) == dec_value(dec_digits(n / 10)) * 10 + (n % 10));
    }
}

fn push_dec_digits(n: usize, out: &mut Vec<u8>)
    ensures
        final(out)@ == old(out)@ + dec_digits(n as nat),
    decreases n,
{
    if n < 10 {
        out.push(48 + (n as u8));
        proof {
            assert(final(out)@ =~= old(out)@ + dec_digits(n as nat));
        }
    } else {
        proof {
            assert(n / 10 < n) by (nonlinear_arith)
                requires
                    n >= 10,
            ;
        }
        let ghost mid = out@;
        push_dec_digits(n / 10, out);
        out.push(48 + ((n % 10) as u8));
        proof {
            assert(n % 10 < 10) by (nonlinear_arith);
            assert(final(out)@ =~= mid + dec_digits(n as nat));
        }
    }
}

pub open spec fn pow10(k: nat) -> nat
    decreases k,
{
    if k == 0 {
        1
    } else {
        10 * pow10((k - 1) as nat)
    }
}

proof fn lemma_dec_digits_len_rec(n: nat, k: nat)
    requires
        n < pow10(k),
    ensures
        dec_digits(n).len() <= k + 1,
    decreases k,
{
    if k > 0 && n >= 10 {
        assert(n / 10 < pow10((k - 1) as nat)) by (nonlinear_arith)
            requires
                n < 10 * pow10((k - 1) as nat),
                n >= 10,
        ;
        lemma_dec_digits_len_rec(n / 10, (k - 1) as nat);
    }
}

/// A length that fits a machine word never takes more than 21 digits.
pub proof fn lemma_dec_digits_len(n: nat)
    requires
        n <= usize::MAX,
    ensures
        dec_digits(n).len() <= 21,
{
    assert(pow10(20) == 100000000000000000000) by {
        reveal_with_fuel(pow10, 21);
    }
    assert(n < pow10(20));
    lemma_dec_digits_len_rec(n, 20);
}

/// The bytes of `Content-Length: `.
pub open spec fn hdr_prefix() -> Seq<u8> {
    seq![67u8, 111, 110, 116, 101, 110, 116, 45, 76, 101, 110, 103, 116, 104, 58, 32]
}

/// The whole header block announcing a body of `n` bytes.
pub open spec fn hdr_bytes(n: nat) -> Seq<u8> {
    hdr_prefix() + dec_digits(n) + seq![CR, LF, CR, LF]
}

/// The encoding of one message.
pub open spec fn encode_spec(body: Seq<u8>) -> Seq<u8> {
    hdr_bytes(body.len()) + body
}

/// Frame a message body for the wire.
pub fn encode_frame(body: &Vec<u8>) -> (r: Vec<u8>)
    ensures
        r@ == encode_spec(body@),
{
    let mut r: Vec<u8> = Vec::new();
    r.push(67);
    r.push(111);
    r.push(110);
    r.push(116);
    r.push(101);
    r.push(110);
    r.push(116);
    r.push(45);
    r.push(76);
    r.push(101);
    r.push(110);
    r.push(103);
    r.push(116);
    r.push(104);
    r.push(58);
    r.push(32);
    proof {
        assert(r@ =~= hdr_prefix());
    }
    push_dec_digits(body.len(), &mut r);
    r.push(CR);
    r.push(LF);
    r.push(CR);
    r.push(LF);
    let mut i: usize = 0;
    while i < body.len()
        invariant
            i <= body@.len(),
            r@ == hdr_prefix() + dec_digits(body@.len()) + seq![CR, LF, CR, LF] + body@.take(
                i as int,
            ),
        decreases body@.len() - i,
    {
        let b = body[i];
        r.push(b);
        proof {
            assert(body@.take(i + 1) =~= body@.take(i as int) + seq![body@[i as int]]);
            assert(r@ =~= hdr_prefix() + dec_digits(body@.len()) + seq![CR, LF, CR, LF]
                + body@.take(i + 1));
        }
        i = i + 1;
    }
    proof {
        assert(body@.take(body@.len() as int) =~= body@);
        assert(r@ =~= encode_spec(body@));
    }
    r
}

/// The header line `Content-Length: <digits>\r\n` sets the remembered
/// length to exactly the rendered number.
proof fn lemma_cl_line(n: usize)
    ensures
        line_cl_update(hdr_prefix() + dec_digits(n as nat) + seq![CR, LF], None) == Some(n),
{
    let d = dec_digits(n as nat);
    let dl = d.len() as int;
    let line = hdr_prefix() + d + seq![CR, LF];
    lemma_dec_digits_are_digits(n as nat);
    assert(forall|j: int| 0 <= j < 16 ==> line[j] == hdr_prefix()[j]);
    assert(line[14] == COLON);
    assert(forall|j: int| 0 <= j < 14 ==> line[j] != COLON);
    lemma_find_b_is(line, COLON, 14);
    // the key compares equal to the length label, ignoring case
    assert forall|i: int| 0 <= i < 14 implies lower_b(line.take(14)[i]) == lower_b(
        cl_label()[i],
    ) by {
        assert(line.take(14)[i] == hdr_prefix()[i]);
    }
    assert(ci_eq(line.take(14), cl_label()));
    // the value trims to exactly the digits
    let value = line.skip(15);
    assert(value =~= seq![32u8] + d + seq![CR, LF]);
    assert(value.last() == LF && is_ws(LF));
    assert(value.drop_last() =~= seq![32u8] + d + seq![CR]);
    assert(trim_back(value) == trim_back(seq![32u8] + d + seq![CR]));
    assert((seq![32u8] + d + seq![CR]).last() == CR && is_ws(CR));
    assert((seq![32u8] + d + seq![CR]).drop_last() =~= seq![32u8] + d);
    assert(trim_back(seq![32u8] + d + seq![CR]) == trim_back(seq![32u8] + d));
    assert((seq![32u8] + d).last() == d.last());
    assert(is_digit(d.last()) && !is_ws(d.last()));
    assert(trim_back(seq![32u8] + d) == seq![32u8] + d);
    assert((seq![32u8] + d)[0] == 32 && is_ws(32));
    assert((seq![32u8] + d).skip(1) =~= d);
    assert(trim_front(seq![32u8] + d) == trim_front(d));
    assert(is_digit(d[0]) && !is_ws(d[0]));
    assert(trim_front(d) == d);
    assert(trim_ws(value) == d);
    // the digits parse back to the announced length
    lemma_dec_value_of_digits(n as nat);
    assert(d[0] != 43);
    assert(all_digits(d) && d.len() > 0 && dec_value(d) == n <= usize::MAX);
    assert(parse_len(d) == Some(n));
}

/// Scanning a well-formed header block finds exactly the announced length,
/// whatever bytes follow the blank line.
pub proof fn lemma_scan_header(n: usize, tail: Seq<u8>)
    ensures
        scan_from(hdr_bytes(n as nat) + tail, None, 0) == (ScanState::Ready {
            len: n,
            body_start: hdr_bytes(n as nat).len() as usize,
        }),
{
    let d = dec_digits(n as nat);
    let dl = d.len() as int;
    let h = hdr_bytes(n as nat);
    let w = h + tail;
    lemma_dec_digits_are_digits(n as nat);
    assert(w.skip(0) =~= w);
    assert(h.len() == 16 + dl + 4);
    assert(forall|j: int| 0 <= j < 16 ==> w[j] == hdr_prefix()[j]);
    assert(forall|i: int| 0 <= i < dl ==> w[16 + i] == d[i]);
    assert(w[16 + dl] == CR && w[16 + dl + 1] == LF && w[16 + dl + 2] == CR && w[16 + dl + 3]
        == LF);
    // the first line break closes the length header line
    assert forall|j: int| 0 <= j < 16 + dl + 1 implies w[j] != LF by {
        if 16 <= j < 16 + dl {
            assert(is_digit(d[j - 16]));
        }
    }
    lemma_find_b_is(w, LF, 16 + dl + 1);
    assert(find_b(w.skip(0), LF) == Some(16 + dl + 1));
    let line = w.subrange(0, 16 + dl + 2);
    assert(line =~= hdr_prefix() + d + seq![CR, LF]);
    lemma_cl_line(n);
    assert(line_cl_update(line, None) == Some(n));
    // so the scan proceeds with the length in hand to the blank line
    assert(scan_from(w, None, 0) == scan_from(w, Some(n), 16 + dl + 2));
    let w2 = w.skip(16 + dl + 2);
    assert(w2[0] == CR && w2[1] == LF);
    lemma_find_b_is(w2, LF, 1);
    assert(scan_from(w, Some(n), 16 + dl + 2) == (ScanState::Ready {
        len: n,
        body_start: (16 + dl + 4) as usize,
    }));
}

/// Framing round trip: an encoded body followed by any further bytes
/// decodes to exactly that body, consuming exactly the frame.
pub proof fn lemma_frame_round_trip(body: Seq<u8>, rest: Seq<u8>)
    requires
        body.len() <= usize::MAX,
    ensures
        ({
            let bytes = encode_spec(body) + rest;
            let h = hdr_bytes(body.len());
            &&& h.len() <= 41
            &&& scan_frame(bytes) == (ScanState::Ready {
                len: body.len() as usize,
                body_start: h.len() as usize,
            })
            &&& bytes.subrange(h.len() as int, h.len() + body.len() as int) == body
        }),
{
    let h = hdr_bytes(body.len());
    let bytes = encode_spec(body) + rest;
    assert(bytes =~= h + (body + rest));
    lemma_dec_digits_len(body.len());
    lemma_scan_header(body.len() as usize, body + rest);
    assert(bytes.subrange(h.len() as int, h.len() + body.len() as int) =~= body);
}

/// A stream truncated anywhere inside the announced body scans to the full
/// length, so the decoder reports an incomplete read instead of a message.
pub proof fn lemma_frame_truncated(body: Seq<u8>, k: int)
    requires
        body.len() <= usize::MAX,
        hdr_bytes(body.len()).len() <= k < encode_spec(body).len(),
    ensures
        ({
            let cut = encode_spec(body).take(k);
            let h = hdr_bytes(body.len());
            &&& h.len() <= 41
            &&& scan_frame(cut) == (ScanState::Ready {
                len: body.len() as usize,
                body_start: h.len() as usize,
            })
            &&& h.len() + body.len() > cut.len()
        }),
{
    let h = hdr_bytes(body.len());
    let cut = encode_spec(body).take(k);
    assert(cut =~= h + body.take(k - h.len()));
    lemma_dec_digits_len(body.len());
    lemma_scan_header(body.len() as usize, body.take(k - h.len()));
}

} // verus!
