//! Reading NDJSON lines back into frames.
use vstd::prelude::*;
use crate::frame::{
    escape_char, escaped, frame_json, hex_char, json_quoted, lit_data, lit_open, lit_seq,
    ndjson_line, FrameKind, FrameModel, StreamFrame,
};
use crate::text::{chars_of, decimal, digit_char, push_char};

verus! {

/// Whether `c` is a decimal digit.
pub open spec fn is_digit(c: char) -> bool {
    '0' <= c && c <= '9'
}

/// The number written by a run of decimal digits.
pub open spec fn digits_value(s: Seq<char>) -> nat
    decreases s.len(),
{
    if s.len() == 0 {
        0
    } else {
        digits_value(s.drop_last()) * 10 + ((s.last() as u32) - 48) as nat
    }
}

proof fn lemma_decimal_digits(n: nat)
    ensures
        decimal(n).len() >= 1,
        forall|i: int| 0 <= i < decimal(n).len() ==> is_digit(#[trigger] decimal(n)[i]),
        digits_value(decimal(n)) == n,
    decreases n,
{
    let d = decimal(n);
    assert((digit_char(n % 10) as u32) == n % 10 + 48);
    assert(is_digit(digit_char(n % 10)));
    assert(d.last() == digit_char(n % 10));
    assert(digits_value(d) == digits_value(d.drop_last()) * 10 + ((d.last() as u32) - 48) as nat);
    if n < 10 {
        assert(d.drop_last() =~= Seq::<char>::empty());
        assert(digits_value(d.drop_last()) == 0);
        assert(n % 10 == n);
    } else {
        lemma_decimal_digits(n / 10);
        assert(d.drop_last() =~= decimal(n / 10));
        assert(digits_value(d) == digits_value(decimal(n / 10)) * 10 + n % 10);
        assert((n / 10) * 10 + n % 10 == n);
        assert forall|i: int| 0 <= i < d.len() implies is_digit(#[trigger] d[i]) by {
            if i < d.len() - 1 {
                assert(d[i] == decimal(n / 10)[i]);
            }
        }
    }
}

proof fn lemma_digits_prefix(s: Seq<char>, k: int)
    requires
        0 <= k <= s.len(),
        forall|i: int| 0 <= i < s.len() ==> is_digit(#[trigger] s[i]),
    ensures
        digits_value(s.take(k)) <= digits_value(s),
    decreases s.len(),
{
    if k < s.len() {
        let t = s.drop_last();
        assert forall|i: int| 0 <= i < t.len() implies is_digit(#[trigger] t[i]) by {
            assert(t[i] == s[i]);
        }
        lemma_digits_prefix(t, k);
        assert(t.take(k) =~= s.take(k));
    } else {
        assert(s.take(k) =~= s);
    }
}

/// Whether the characters of `cs` from `pos` are those of `lit`, all before
/// `end`.
fn expect_at(cs: &Vec<char>, pos: usize, end: usize, lit: &Vec<char>) -> (r: bool)
    requires
        end <= cs@.len(),
    ensures
        r == (pos + lit@.len() <= end && cs@.subrange(pos as int, pos + lit@.len()) == lit@),
{
    if pos > end || lit.len() > end - pos {
        return false;
    }
    let mut i: usize = 0;
    while i < lit.len()
        invariant
            pos + lit@.len() <= end <= cs@.len(),
            i <= lit@.len(),
            forall|j: int| 0 <= j < i ==> cs@[pos + j] == lit@[j],
        decreases lit@.len() - i,
    {
        if cs[pos + i] != lit[i] {
            assert(cs@.subrange(pos as int, pos + lit@.len())[i as int] != lit@[i as int]);
            return false;
        }
        i += 1;
    }
    assert(cs@.subrange(pos as int, pos + lit@.len()) =~= lit@);
    true
}

/// Reads a run of decimal digits at `pos`: its value and the position after
/// it. Where the text there is the decimal form of `target`, followed by a
/// character that is not a digit, that is what it reads.
fn read_number(cs: &Vec<char>, pos: usize, end: usize, Ghost(target): Ghost<Option<u64>>) -> (r:
    Option<(u64, usize)>)
    requires
        pos <= end <= cs@.len(),
        target matches Some(v) ==> {
            let d = decimal(v as nat);
            &&& pos + d.len() < end
            &&& cs@.subrange(pos as int, pos + d.len()) == d
            &&& !is_digit(cs@[pos + d.len()])
        },
    ensures
        r matches Some((_, p)) ==> p <= end,
        target matches Some(v) ==> r == Some((v, (pos + decimal(v as nat).len()) as usize)),
{
    let ghost d = match target {
        Some(v) => decimal(v as nat),
        None => Seq::empty(),
    };
    proof {
        if let Some(v) = target {
            lemma_decimal_digits(v as nat);
        }
    }
    let mut i: usize = pos;
    let mut acc: u64 = 0;
    while i < end && '0' <= cs[i] && cs[i] <= '9'
        invariant
            pos <= i <= end <= cs@.len(),
            target matches Some(v) ==> {
                &&& d == decimal(v as nat)
                &&& i <= pos + d.len()
                &&& acc == digits_value(d.take(i - pos))
                &&& pos + d.len() < end
                &&& cs@.subrange(pos as int, pos + d.len()) == d
                &&& !is_digit(cs@[pos + d.len()])
                &&& forall|j: int| 0 <= j < d.len() ==> is_digit(#[trigger] d[j])
                &&& digits_value(d) == v
            },
        decreases end - i,
    {
        let dg: u64 = (cs[i] as u32 - 48) as u64;
        proof {
            if let Some(v) = target {
                assert(i < pos + d.len()) by {
                    if i == pos + d.len() {
                        assert(is_digit(cs@[i as int]));
                    }
                }
                let k = i - pos;
                assert(cs@[i as int] == d[k]);
                assert(d.take(k + 1).drop_last() =~= d.take(k));
                lemma_digits_prefix(d, k + 1);
                assert(acc * 10 + dg <= u64::MAX);
                assert(acc <= (u64::MAX - dg) / 10) by (nonlinear_arith)
                    requires
                        acc * 10 + dg <= u64::MAX,
                ;
            }
        }
        if acc > (u64::MAX - dg) / 10 {
            return None;
        }
        assert(acc * 10 + dg <= u64::MAX) by (nonlinear_arith)
            requires
                acc <= (u64::MAX - dg) / 10,
                dg <= 9,
        ;
        acc = acc * 10 + dg;
        i += 1;
    }
    proof {
        if let Some(v) = target {
            if i < pos + d.len() {
                assert(cs@.subrange(pos as int, pos + d.len())[i - pos] == cs@[i as int]);
                assert(cs@[i as int] == d[i - pos]);
                assert(is_digit(d[i - pos]));
            }
            assert(d.take(d.len() as int) =~= d);
        }
    }
    if i == pos {
        return None;
    }
    Some((acc, i))
}

/// The value of a hexadecimal digit, either case.
fn hex_value(c: char) -> (r: Option<u32>)
    ensures
        r matches Some(v) ==> v < 16,
        forall|d: nat| d < 16 && c == hex_char(d) ==> r == Some(d as u32),
{
    if '0' <= c && c <= '9' {
        Some(c as u32 - 48)
    } else if 'a' <= c && c <= 'f' {
        Some(c as u32 - 87)
    } else if 'A' <= c && c <= 'F' {
        Some(c as u32 - 55)
    } else {
        None
    }
}

proof fn lemma_small_char(c: char)
    requires
        (c as u32) < 32,
    ensures
        c == ((c as u32) as u8) as char,
{
}

proof fn lemma_escape_shape(c: char)
    ensures
        escape_char(c).len() >= 1,
        escape_char(c)[0] != '"',
        escape_char(c)[0] == '\\' || escape_char(c) == seq![c],
{
}

/// Reads a JSON string literal at `pos`: its text and the position after the
/// closing quote. Where the text there begins with the literal that
/// `serde_json` writes for `target`, that is what it reads.
fn read_string(cs: &Vec<char>, pos: usize, end: usize, Ghost(target): Ghost<Option<Seq<char>>>) -> (r:
    Option<(String, usize)>)
    requires
        pos <= end <= cs@.len(),
        target matches Some(s) ==> {
            &&& pos + json_quoted(s).len() <= end
            &&& cs@.subrange(pos as int, pos + json_quoted(s).len()) == json_quoted(s)
        },
    ensures
        r matches Some((_, p)) ==> p <= end,
        target matches Some(s) ==> r matches Some((o, p)) && o@ == s && p == pos + json_quoted(
            s,
        ).len(),
{
    if pos >= end || cs[pos] != '"' {
        proof {
            if let Some(s) = target {
                assert(cs@.subrange(pos as int, pos + json_quoted(s).len())[0] == cs@[pos as int]);
                assert(json_quoted(s)[0] == '"');
            }
        }
        return None;
    }
    let ghost s = match target {
        Some(s) => s,
        None => Seq::empty(),
    };
    let ghost stop: int = pos + json_quoted(s).len();
    let mut i: usize = pos + 1;
    let mut out = String::new();
    let ghost mut k: int = 0;
    proof {
        if target is Some {
            assert(cs@.subrange(i as int, stop) =~= escaped(s.skip(0)) + seq!['"']) by {
                assert(s.skip(0) =~= s);
                assert(cs@.subrange(i as int, stop) =~= json_quoted(s).subrange(1, json_quoted(s).len() as int));
            }
        }
    }
    loop
        invariant
            pos < i <= end <= cs@.len(),
            target matches Some(s0) ==> {
                &&& s0 == s
                &&& stop == pos + json_quoted(s).len()
                &&& stop <= end
                &&& 0 <= k <= s.len()
                &&& out@ == s.take(k)
                &&& i < stop
                &&& cs@.subrange(i as int, stop) == escaped(s.skip(k)) + seq!['"']
            },
        decreases end - i,
    {
        if i >= end {
            return None;
        }
        let ghost rest = s.skip(k);
        proof {
            if target is Some && k < s.len() {
                assert(rest[0] == s[k]);
                assert(rest.drop_first() =~= s.skip(k + 1));
                lemma_escape_shape(s[k]);
                let e = escape_char(s[k]);
                assert(cs@.subrange(i as int, stop) == e + escaped(s.skip(k + 1)) + seq!['"']);
                assert(cs@.subrange(i as int, stop)[0] == cs@[i as int]);
                assert((e + escaped(s.skip(k + 1)) + seq!['"'])[0] == e[0]);
                assert(cs@[i as int] == e[0]);
            }
        }
        let c = cs[i];
        if c == '"' {
            proof {
                if target is Some {
                    if k < s.len() {
                        assert(false);
                    }
                    assert(rest.len() == 0);
                    assert(cs@.subrange(i as int, stop).len() == 1);
                    assert(s.take(k) =~= s);
                }
            }
            return Some((out, i + 1));
        }
        let ghost e = escape_char(s[k]);
        let ghost tail = escaped(s.skip(k + 1)) + seq!['"'];
        proof {
            if target is Some {
                if k == s.len() {
                    assert(cs@.subrange(i as int, stop) =~= seq!['"']) by {
                        assert(rest =~= Seq::<char>::empty());
                    }
                    assert(cs@.subrange(i as int, stop)[0] == cs@[i as int]);
                    assert(cs@[i as int] == '"');
                }
                assert(k < s.len());
                assert(cs@.subrange(i as int, stop) =~= e + tail);
                assert forall|j: int| 0 <= j < e.len() implies cs@[i + j] == #[trigger] e[j] by {
                    assert(cs@.subrange(i as int, stop)[j] == (e + tail)[j]);
                }
                assert(i + e.len() < stop) by {
                    assert((e + tail).len() == e.len() + tail.len());
                }
            }
        }
        let width: usize;
        if c == '\\' {
            if i + 1 >= end {
                return None;
            }
            let x = cs[i + 1];
            let decoded: char;
            if x == '"' {
                decoded = '"';
                width = 2;
            } else if x == '\\' {
                decoded = '\\';
                width = 2;
            } else if x == 'b' {
                decoded = '\x08';
                width = 2;
            } else if x == 't' {
                decoded = '\t';
                width = 2;
            } else if x == 'n' {
                decoded = '\n';
                width = 2;
            } else if x == 'f' {
                decoded = '\x0c';
                width = 2;
            } else if x == 'r' {
                decoded = '\r';
                width = 2;
            } else if x == 'u' {
                if end - i < 6 || cs[i + 2] != '0' || cs[i + 3] != '0' {
                    return None;
                }
                let hi = hex_value(cs[i + 4]);
                let lo = hex_value(cs[i + 5]);
                match (hi, lo) {
                    (Some(h), Some(l)) => {
                        decoded = ((h * 16 + l) as u8) as char;
                        width = 6;
                        proof {
                            if target is Some {
                                let c0 = s[k];
                                assert((c0 as u32) < 32);
                                let q = (c0 as u32 / 16) as nat;
                                let m = (c0 as u32 % 16) as nat;
                                assert(cs@[i + 4] == hex_char(q));
                                assert(cs@[i + 5] == hex_char(m));
                                assert(h == q && l == m);
                                assert(h * 16 + l == c0 as u32);
                                lemma_small_char(c0);
                                assert(decoded == c0);
                            }
                        }
                    },
                    _ => {
                        return None;
                    },
                }
            } else {
                return None;
            }
            proof {
                if target is Some {
                    assert(decoded == s[k]);
                    assert(width == e.len());
                }
            }
            push_char(&mut out, decoded);
        } else {
            width = 1;
            proof {
                if target is Some {
                    assert(e == seq![s[k]]);
                    assert(c == s[k]);
                }
            }
            push_char(&mut out, c);
        }
        proof {
            if target is Some {
                assert(out@ =~= s.take(k + 1));
                assert(width == e.len());
                assert(cs@.subrange(i + width, stop) =~= cs@.subrange(i as int, stop).subrange(
                    width as int,
                    stop - i,
                ));
                assert((e + tail).subrange(e.len() as int, (e + tail).len() as int) =~= tail);
                assert(cs@.subrange(i + width, stop) =~= tail);
                k = k + 1;
            }
        }
        i = i + width;
    }
}

/// Reads the kind name at position 6: the kind and the position after it.
/// Where the text there is the name of `target`, that is what it reads.
fn read_kind(cs: &Vec<char>, end: usize, Ghost(target): Ghost<Option<FrameKind>>) -> (r: Option<
    (FrameKind, usize),
>)
    requires
        end <= cs@.len(),
        target matches Some(t) ==> {
            &&& 6 + t.name_spec().len() <= end
            &&& cs@.subrange(6, 6 + t.name_spec().len() as int) == t.name_spec()
        },
    ensures
        target matches Some(t) ==> r == Some((t, (6 + t.name_spec().len()) as usize)),
{
    let r = if expect_at(cs, 6, end, &vec!['s', 't', 'd', 'o', 'u', 't']) {
        Some((FrameKind::Stdout, 12usize))
    } else if expect_at(cs, 6, end, &vec!['s', 't', 'd', 'e', 'r', 'r']) {
        Some((FrameKind::Stderr, 12usize))
    } else if expect_at(cs, 6, end, &vec!['e', 'v', 'e', 'n', 't']) {
        Some((FrameKind::Event, 11usize))
    } else {
        None
    };
    proof {
        if let Some(t0) = target {
            let name = t0.name_spec();
            assert(cs@.subrange(6, 6 + name.len() as int)[0] == cs@[6]);
            if name.len() == 6 {
                assert(cs@.subrange(6, 12)[3] == cs@[9]);
            }
            match r {
                Some((t, p)) => {
                    let got = cs@.subrange(6, p as int);
                    assert(got == t.name_spec());
                    assert(got[0] == cs@[6]);
                    if p == 12 {
                        assert(got[3] == cs@[9]);
                    }
                    assert(t == t0);
                },
                None => {
                    assert(false);
                },
            }
        }
    }
    r
}

proof fn lemma_layout(fj: Seq<char>, f: FrameModel)
    requires
        fj == frame_json(f),
    ensures
        ({
            let kind_end: int = 6 + f.t.name_spec().len() as int;
            let digits_at: int = kind_end + 8;
            let data_lit_at: int = digits_at + decimal(f.seq as nat).len() as int;
            let text_at: int = data_lit_at + 5;
            let close_at: int = text_at + json_quoted(f.d).len() as int;
            &&& fj.len() == close_at + 1
            &&& fj.last() == '}'
            &&& fj.subrange(0, 6) == lit_open()
            &&& fj.subrange(6, kind_end) == f.t.name_spec()
            &&& fj.subrange(kind_end, digits_at) == lit_seq()
            &&& fj.subrange(digits_at, data_lit_at) == decimal(f.seq as nat)
            &&& fj.subrange(data_lit_at, text_at) == lit_data()
            &&& fj.subrange(text_at, close_at) == json_quoted(f.d)
            &&& fj[data_lit_at] == ','
        }),
{
    let kind_end: int = 6 + f.t.name_spec().len() as int;
    let digits_at: int = kind_end + 8;
    let data_lit_at: int = digits_at + decimal(f.seq as nat).len() as int;
    let text_at: int = data_lit_at + 5;
    let close_at: int = text_at + json_quoted(f.d).len() as int;
    assert(fj.subrange(0, 6) =~= lit_open());
    assert(fj.subrange(6, kind_end) =~= f.t.name_spec());
    assert(fj.subrange(kind_end, digits_at) =~= lit_seq());
    assert(fj.subrange(digits_at, data_lit_at) =~= decimal(f.seq as nat));
    assert(fj.subrange(data_lit_at, text_at) =~= lit_data());
    assert(fj.subrange(text_at, close_at) =~= json_quoted(f.d));
}

/// Reads a frame back from its JSON object, with or without the newline
/// that ends its NDJSON line. Only the exact form that `to_ndjson` writes is
/// accepted.
#[verifier::rlimit(60)]
pub fn parse_line(line: &str) -> (r: Option<StreamFrame>)
    ensures
        match r {
            Some(f) => line@ == frame_json(f@) || line@ == ndjson_line(f@),
            None => forall|f: FrameModel|
                #![trigger frame_json(f)]
                line@ != frame_json(f) && line@ != ndjson_line(f),
        },
{
    let cs = chars_of(line);
    let n = cs.len();
    let end: usize = if n > 0 && cs[n - 1] == '\n' {
        n - 1
    } else {
        n
    };
    let ghost canon = exists|f: FrameModel|
        #![trigger frame_json(f)]
        line@ == frame_json(f) || line@ == ndjson_line(f);
    let ghost f0: FrameModel = if canon {
        choose|f: FrameModel| #![trigger frame_json(f)] line@ == frame_json(f) || line@ == ndjson_line(f)
    } else {
        arbitrary()
    };
    let ghost name = f0.t.name_spec();
    let ghost dec = decimal(f0.seq as nat);
    let ghost quoted = json_quoted(f0.d);
    let ghost kind_end: int = 6 + name.len() as int;
    let ghost digits_at: int = kind_end + 8;
    let ghost data_lit_at: int = digits_at + dec.len() as int;
    let ghost text_at: int = data_lit_at + 5;
    let ghost close_at: int = text_at + quoted.len() as int;
    proof {
        if canon {
            let fj = frame_json(f0);
            lemma_layout(fj, f0);
            assert(cs@.take(end as int) =~= fj);
            assert(end == fj.len());
            assert(cs@.subrange(0, 6) =~= fj.subrange(0, 6));
            assert(cs@.subrange(6, kind_end) =~= fj.subrange(6, kind_end));
            assert(cs@.subrange(kind_end, digits_at) =~= fj.subrange(kind_end, digits_at));
            assert(cs@.subrange(digits_at, data_lit_at) =~= fj.subrange(digits_at, data_lit_at));
            assert(cs@[data_lit_at] == fj[data_lit_at]);
            assert(cs@.subrange(data_lit_at, text_at) =~= fj.subrange(data_lit_at, text_at));
            assert(cs@.subrange(text_at, close_at) =~= fj.subrange(text_at, close_at));
        }
    }
    if !expect_at(&cs, 0, end, &vec!['{', '"', 't', '"', ':', '"']) {
        return None;
    }
    let kind_target: Ghost<Option<FrameKind>> = Ghost(if canon { Some(f0.t) } else { None });
    let (t, p) = match read_kind(&cs, end, kind_target) {
        Some(x) => x,
        None => {
            return None;
        },
    };
    if !expect_at(&cs, p, end, &vec!['"', ',', '"', 's', 'e', 'q', '"', ':']) {
        return None;
    }
    let seq_target: Ghost<Option<u64>> = Ghost(if canon { Some(f0.seq) } else { None });
    let (seq, q) = match read_number(&cs, p + 8, end, seq_target) {
        Some(x) => x,
        None => {
            return None;
        },
    };
    if !expect_at(&cs, q, end, &vec![',', '"', 'd', '"', ':']) {
        return None;
    }
    let d_target: Ghost<Option<Seq<char>>> = Ghost(if canon { Some(f0.d) } else { None });
    let (d, _after) = match read_string(&cs, q + 5, end, d_target) {
        Some(x) => x,
        None => {
            return None;
        },
    };
    let f = StreamFrame::new(t, seq, d);
    let whole = String::from_str(line);
    let j = f.to_json();
    if j == whole {
        return Some(f);
    }
    let nl = f.to_ndjson();
    if nl == whole {
        return Some(f);
    }
    proof {
        if canon {
            assert(f@ == f0);
            assert(false);
        }
    }
    None
}

proof fn lemma_hex_char_injective(a: nat, b: nat)
    requires
        a < 16,
        b < 16,
        hex_char(a) == hex_char(b),
    ensures
        a == b,
{
    assert(hex_char(a) as u32 == hex_char(b) as u32);
}

proof fn lemma_escape_prefix(c1: char, c2: char, x: Seq<char>, y: Seq<char>)
    requires
        escape_char(c1) + x == escape_char(c2) + y,
    ensures
        c1 == c2,
{
    let e1 = escape_char(c1);
    let e2 = escape_char(c2);
    let w = e1 + x;
    assert(w[0] == e1[0] && w[0] == e2[0]);
    if e1[0] == '\\' {
        assert(e1.len() >= 2 && e2.len() >= 2);
        assert(w[1] == e1[1] && w[1] == e2[1]);
        if e1[1] == 'u' {
            assert(e1.len() == 6 && e2.len() == 6);
            assert(w[4] == e1[4] && w[4] == e2[4]);
            assert(w[5] == e1[5] && w[5] == e2[5]);
            lemma_hex_char_injective((c1 as u32 / 16) as nat, (c2 as u32 / 16) as nat);
            lemma_hex_char_injective((c1 as u32 % 16) as nat, (c2 as u32 % 16) as nat);
            assert(c1 as u32 == c2 as u32);
            lemma_small_char(c1);
            lemma_small_char(c2);
        }
    }
}

proof fn lemma_escaped_injective(a: Seq<char>, b: Seq<char>)
    requires
        escaped(a) == escaped(b),
    ensures
        a == b,
    decreases a.len(),
{
    if a.len() == 0 || b.len() == 0 {
        if a.len() != 0 {
            lemma_escape_shape(a[0]);
        }
        if b.len() != 0 {
            lemma_escape_shape(b[0]);
        }
        assert(a =~= b);
    } else {
        let x = escaped(a.drop_first());
        let y = escaped(b.drop_first());
        lemma_escape_prefix(a[0], b[0], x, y);
        let e = escape_char(a[0]);
        assert(x =~= (e + x).subrange(e.len() as int, (e + x).len() as int));
        assert(y =~= (e + y).subrange(e.len() as int, (e + y).len() as int));
        lemma_escaped_injective(a.drop_first(), b.drop_first());
        assert(a =~= seq![a[0]] + a.drop_first());
        assert(b =~= seq![b[0]] + b.drop_first());
    }
}

proof fn lemma_same_kind(f: FrameModel, g: FrameModel)
    requires
        frame_json(f) == frame_json(g),
    ensures
        f.t == g.t,
{
    let fj = frame_json(f);
    assert(fj[6] == f.t.name_spec()[0]);
    assert(fj[6] == g.t.name_spec()[0]);
    assert(fj[9] == f.t.name_spec()[3]);
    assert(fj[9] == g.t.name_spec()[3]);
}

proof fn lemma_same_seq(f: FrameModel, g: FrameModel)
    requires
        frame_json(f) == frame_json(g),
        f.t == g.t,
    ensures
        f.seq == g.seq,
{
    let fj = frame_json(f);
    lemma_layout(fj, f);
    lemma_layout(fj, g);
    let digits_at: int = 6 + f.t.name_spec().len() as int + 8;
    let df = decimal(f.seq as nat);
    let dg = decimal(g.seq as nat);
    lemma_decimal_digits(f.seq as nat);
    lemma_decimal_digits(g.seq as nat);
    if df.len() < dg.len() {
        assert(fj.subrange(digits_at, digits_at + dg.len())[df.len() as int] == fj[digits_at + df.len()]);
        assert(is_digit(dg[df.len() as int]));
    }
    if dg.len() < df.len() {
        assert(fj.subrange(digits_at, digits_at + df.len())[dg.len() as int] == fj[digits_at + dg.len()]);
        assert(is_digit(df[dg.len() as int]));
    }
    assert(df == dg);
}

proof fn lemma_same_data(f: FrameModel, g: FrameModel)
    requires
        frame_json(f) == frame_json(g),
        f.t == g.t,
        f.seq == g.seq,
    ensures
        f.d == g.d,
{
    let fj = frame_json(f);
    lemma_layout(fj, f);
    lemma_layout(fj, g);
    let qf = json_quoted(f.d);
    let qg = json_quoted(g.d);
    assert(qf == qg);
    assert(escaped(f.d) =~= qf.subrange(1, qf.len() - 1));
    assert(escaped(g.d) =~= qg.subrange(1, qg.len() - 1));
    lemma_escaped_injective(f.d, g.d);
}

/// Different frames have different JSON objects.
proof fn lemma_frame_json_injective(f: FrameModel, g: FrameModel)
    requires
        frame_json(f) == frame_json(g),
    ensures
        f == g,
{
    lemma_same_kind(f, g);
    lemma_same_seq(f, g);
    lemma_same_data(f, g);
}

/// Writing a frame as an NDJSON line and reading that line back gives the
/// same frame: whatever `parse_line` returns for the line of `f`, when it
/// stands in `parse_line`'s contract, is `f` itself.
pub proof fn lemma_line_round_trip(f: FrameModel, g: FrameModel)
    requires
        ndjson_line(f) == frame_json(g) || ndjson_line(f) == ndjson_line(g),
    ensures
        f == g,
{
    if ndjson_line(f) == frame_json(g) {
        lemma_layout(frame_json(g), g);
        assert(ndjson_line(f).last() == '\n');
        assert(false);
    }
    assert(frame_json(f) =~= ndjson_line(f).drop_last());
    assert(frame_json(g) =~= ndjson_line(g).drop_last());
    lemma_frame_json_injective(f, g);
}

/// A line is the JSON object, or the NDJSON line, of at most one frame.
pub proof fn lemma_line_determines_frame(line: Seq<char>, f: FrameModel, g: FrameModel)
    requires
        line == frame_json(f) || line == ndjson_line(f),
        line == frame_json(g) || line == ndjson_line(g),
    ensures
        f == g,
{
    if line == ndjson_line(f) {
        lemma_line_round_trip(f, g);
    } else if line == ndjson_line(g) {
        lemma_line_round_trip(g, f);
    } else {
        lemma_frame_json_injective(f, g);
    }
}

} // verus!
