//! A self-delimiting text encoding of nodes, and its inverse.
//!
//! A number is written in decimal and closed by `:`; a string is its length
//! in characters, as a number, followed by its characters. A node is its id
//! (`-` when absent, `+` and the number when present), its path, its chunk,
//! its vector (`-`, or `+`, the count and each component as a number) and its
//! metadata (the count, then each key and value as strings).
use vstd::prelude::*;

use crate::node::{Node, NodeView};

verus! {

pub open spec fn is_digit(c: char) -> bool {
    '0' <= c && c <= '9'
}

pub open spec fn digit_value(c: char) -> nat {
    (c as int - '0' as int) as nat
}

pub open spec fn digit_of(d: nat) -> char {
    if d == 0 { '0' }
    else if d == 1 { '1' }
    else if d == 2 { '2' }
    else if d == 3 { '3' }
    else if d == 4 { '4' }
    else if d == 5 { '5' }
    else if d == 6 { '6' }
    else if d == 7 { '7' }
    else if d == 8 { '8' }
    else { '9' }
}

/// The decimal digits of `n`, most significant first.
pub open spec fn decimal(n: nat) -> Seq<char>
    decreases n,
{
    if n < 10 {
        seq![digit_of(n)]
    } else {
        decimal(n / 10).push(digit_of(n % 10))
    }
}

pub open spec fn enc_num(n: nat) -> Seq<char> {
    decimal(n) + seq![':']
}

pub open spec fn enc_str(s: Seq<char>) -> Seq<char> {
    enc_num(s.len()) + s
}

pub open spec fn enc_id(id: Option<u64>) -> Seq<char> {
    match id {
        None => seq!['-'],
        Some(n) => seq!['+'] + enc_num(n as nat),
    }
}

pub open spec fn enc_u32s(v: Seq<u32>) -> Seq<char>
    decreases v.len(),
{
    if v.len() == 0 {
        Seq::empty()
    } else {
        enc_num(v[0] as nat) + enc_u32s(v.drop_first())
    }
}

pub open spec fn enc_vector(v: Option<Seq<u32>>) -> Seq<char> {
    match v {
        None => seq!['-'],
        Some(v) => seq!['+'] + (enc_num(v.len()) + enc_u32s(v)),
    }
}

pub open spec fn enc_pairs(m: Seq<(Seq<char>, Seq<char>)>) -> Seq<char>
    decreases m.len(),
{
    if m.len() == 0 {
        Seq::empty()
    } else {
        enc_str(m[0].0) + (enc_str(m[0].1) + enc_pairs(m.drop_first()))
    }
}

pub open spec fn enc_metadata(m: Seq<(Seq<char>, Seq<char>)>) -> Seq<char> {
    enc_num(m.len()) + enc_pairs(m)
}

/// The encoding of a node.
pub open spec fn encode(n: NodeView) -> Seq<char> {
    enc_id(n.id) + (enc_str(n.path) + (enc_str(n.chunk) + (enc_vector(n.vector) + enc_metadata(
        n.metadata,
    ))))
}

/// Splits `s` into its leading run of digits and the rest.
pub open spec fn take_digits(s: Seq<char>) -> (Seq<char>, Seq<char>)
    decreases s.len(),
{
    if s.len() > 0 && is_digit(s[0]) {
        let (d, r) = take_digits(s.drop_first());
        (seq![s[0]] + d, r)
    } else {
        (Seq::empty(), s)
    }
}

/// The value of a run of digits, read from the left; `None` once a prefix
/// exceeds `u64::MAX`.
pub open spec fn digits_value(d: Seq<char>) -> Option<nat>
    decreases d.len(),
{
    if d.len() == 0 {
        Some(0)
    } else {
        match digits_value(d.drop_last()) {
            Some(v) => if v * 10 + digit_value(d.last()) <= u64::MAX {
                Some(v * 10 + digit_value(d.last()))
            } else {
                None
            },
            None => None,
        }
    }
}

pub open spec fn parse_num(s: Seq<char>) -> Option<(nat, Seq<char>)> {
    let (d, r) = take_digits(s);
    if d.len() > 0 && r.len() > 0 && r[0] == ':' {
        match digits_value(d) {
            Some(v) => Some((v, r.drop_first())),
            None => None,
        }
    } else {
        None
    }
}

pub open spec fn parse_str(s: Seq<char>) -> Option<(Seq<char>, Seq<char>)> {
    match parse_num(s) {
        Some((n, r)) => if n <= r.len() {
            Some((r.take(n as int), r.skip(n as int)))
        } else {
            None
        },
        None => None,
    }
}

pub open spec fn parse_id(s: Seq<char>) -> Option<(Option<u64>, Seq<char>)> {
    if s.len() > 0 && s[0] == '-' {
        Some((None, s.drop_first()))
    } else if s.len() > 0 && s[0] == '+' {
        match parse_num(s.drop_first()) {
            Some((n, r)) => Some((Some(n as u64), r)),
            None => None,
        }
    } else {
        None
    }
}

pub open spec fn parse_u32s(s: Seq<char>, count: nat) -> Option<(Seq<u32>, Seq<char>)>
    decreases count,
{
    if count == 0 {
        Some((Seq::empty(), s))
    } else {
        match parse_num(s) {
            Some((x, r)) => if x <= u32::MAX {
                match parse_u32s(r, (count - 1) as nat) {
                    Some((xs, r2)) => Some((seq![x as u32] + xs, r2)),
                    None => None,
                }
            } else {
                None
            },
            None => None,
        }
    }
}

pub open spec fn parse_vector(s: Seq<char>) -> Option<(Option<Seq<u32>>, Seq<char>)> {
    if s.len() > 0 && s[0] == '-' {
        Some((None, s.drop_first()))
    } else if s.len() > 0 && s[0] == '+' {
        match parse_num(s.drop_first()) {
            Some((n, r)) => match parse_u32s(r, n) {
                Some((v, r2)) => Some((Some(v), r2)),
                None => None,
            },
            None => None,
        }
    } else {
        None
    }
}

pub open spec fn parse_pairs(s: Seq<char>, count: nat) -> Option<
    (Seq<(Seq<char>, Seq<char>)>, Seq<char>),
>
    decreases count,
{
    if count == 0 {
        Some((Seq::empty(), s))
    } else {
        match parse_str(s) {
            Some((k, r)) => match parse_str(r) {
                Some((v, r2)) => match parse_pairs(r2, (count - 1) as nat) {
                    Some((m, r3)) => Some((seq![(k, v)] + m, r3)),
                    None => None,
                },
                None => None,
            },
            None => None,
        }
    }
}

pub open spec fn parse_metadata(s: Seq<char>) -> Option<(Seq<(Seq<char>, Seq<char>)>, Seq<char>)> {
    match parse_num(s) {
        Some((n, r)) => parse_pairs(r, n),
        None => None,
    }
}

/// The node that `s` encodes, if it encodes one.
pub open spec fn decode(s: Seq<char>) -> Option<NodeView> {
    match parse_id(s) {
        Some((id, r1)) => match parse_str(r1) {
            Some((path, r2)) => match parse_str(r2) {
                Some((chunk, r3)) => match parse_vector(r3) {
                    Some((vector, r4)) => match parse_metadata(r4) {
                        Some((metadata, r5)) => if r5.len() == 0 {
                            Some(NodeView { id, path, chunk, vector, metadata })
                        } else {
                            None
                        },
                        None => None,
                    },
                    None => None,
                },
                None => None,
            },
            None => None,
        },
        None => None,
    }
}

proof fn lemma_digit(d: nat)
    requires
        d < 10,
    ensures
        is_digit(digit_of(d)),
        digit_value(digit_of(d)) == d,
{
}

proof fn lemma_decimal_digits(n: nat)
    ensures
        decimal(n).len() > 0,
        forall|i: int| 0 <= i < decimal(n).len() ==> is_digit(#[trigger] decimal(n)[i]),
    decreases n,
{
    lemma_digit(n % 10);
    if n >= 10 {
        lemma_decimal_digits(n / 10);
    }
}

proof fn lemma_decimal_value(n: nat)
    requires
        n <= u64::MAX,
    ensures
        digits_value(decimal(n)) == Some(n),
    decreases n,
{
    lemma_digit(n % 10);
    let d = decimal(n);
    if n >= 10 {
        lemma_decimal_value(n / 10);
        assert(d.drop_last() =~= decimal(n / 10));
        assert(d.last() == digit_of(n % 10));
        assert((n / 10) * 10 + n % 10 == n);
        assert(digits_value(d.drop_last()) == Some(n / 10));
        assert(digit_value(d.last()) == n % 10);
    } else {
        assert(n % 10 == n);
        assert(d.drop_last() =~= Seq::<char>::empty());
        assert(d.last() == digit_of(n));
    }
}

proof fn lemma_take_digits(d: Seq<char>, r: Seq<char>)
    requires
        forall|i: int| 0 <= i < d.len() ==> is_digit(#[trigger] d[i]),
        r.len() > 0,
        !is_digit(r[0]),
    ensures
        take_digits(d + r) == (d, r),
    decreases d.len(),
{
    if d.len() == 0 {
        assert(d + r =~= r);
    } else {
        lemma_take_digits(d.drop_first(), r);
        assert((d + r).drop_first() =~= d.drop_first() + r);
        assert(seq![d[0]] + d.drop_first() =~= d);
    }
}

proof fn lemma_num(n: nat, r: Seq<char>)
    requires
        n <= u64::MAX,
    ensures
        parse_num(enc_num(n) + r) == Some((n, r)),
{
    lemma_decimal_digits(n);
    lemma_decimal_value(n);
    let tail = seq![':'] + r;
    assert(enc_num(n) + r =~= decimal(n) + tail);
    lemma_take_digits(decimal(n), tail);
    assert(tail.drop_first() =~= r);
}

proof fn lemma_str(s: Seq<char>, r: Seq<char>)
    requires
        s.len() <= u64::MAX,
    ensures
        parse_str(enc_str(s) + r) == Some((s, r)),
{
    lemma_num(s.len(), s + r);
    assert(enc_str(s) + r =~= enc_num(s.len()) + (s + r));
    assert((s + r).take(s.len() as int) =~= s);
    assert((s + r).skip(s.len() as int) =~= r);
}

proof fn lemma_u32s(v: Seq<u32>, r: Seq<char>)
    ensures
        parse_u32s(enc_u32s(v) + r, v.len()) == Some((v, r)),
    decreases v.len(),
{
    if v.len() == 0 {
        assert(enc_u32s(v) + r =~= r);
    } else {
        let rest = enc_u32s(v.drop_first()) + r;
        lemma_num(v[0] as nat, rest);
        lemma_u32s(v.drop_first(), r);
        assert(enc_u32s(v) + r =~= enc_num(v[0] as nat) + rest);
        assert(seq![v[0]] + v.drop_first() =~= v);
    }
}

proof fn lemma_pairs(m: Seq<(Seq<char>, Seq<char>)>, r: Seq<char>)
    requires
        forall|i: int|
            0 <= i < m.len() ==> (#[trigger] m[i]).0.len() <= u64::MAX && m[i].1.len() <= u64::MAX,
    ensures
        parse_pairs(enc_pairs(m) + r, m.len()) == Some((m, r)),
    decreases m.len(),
{
    if m.len() == 0 {
        assert(enc_pairs(m) + r =~= r);
    } else {
        let rest = enc_pairs(m.drop_first()) + r;
        assert(m[0].0.len() <= u64::MAX && m[0].1.len() <= u64::MAX);
        lemma_str(m[0].0, enc_str(m[0].1) + rest);
        lemma_str(m[0].1, rest);
        lemma_pairs(m.drop_first(), r);
        assert(enc_pairs(m) + r =~= enc_str(m[0].0) + (enc_str(m[0].1) + rest));
        assert(seq![m[0]] + m.drop_first() =~= m);
    }
}

/// Every length in `n` fits in a `u64`, which the encoding writes them as.
pub open spec fn sized(n: NodeView) -> bool {
    &&& n.path.len() <= u64::MAX
    &&& n.chunk.len() <= u64::MAX
    &&& (n.vector matches Some(v) ==> v.len() <= u64::MAX)
    &&& n.metadata.len() <= u64::MAX
    &&& forall|i: int|
        0 <= i < n.metadata.len() ==> (#[trigger] n.metadata[i]).0.len() <= u64::MAX
            && n.metadata[i].1.len() <= u64::MAX
}

/// Decoding the encoding of a node gives the node back.
pub proof fn lemma_decode_encode(n: NodeView)
    requires
        sized(n),
    ensures
        decode(encode(n)) == Some(n),
{
    let t4 = enc_metadata(n.metadata);
    let t3 = enc_vector(n.vector) + t4;
    let t2 = enc_str(n.chunk) + t3;
    let t1 = enc_str(n.path) + t2;
    match n.id {
        None => {
            assert((seq!['-'] + t1).drop_first() =~= t1);
        },
        Some(x) => {
            lemma_num(x as nat, t1);
            assert(seq!['+'] + enc_num(x as nat) + t1 =~= seq!['+'] + (enc_num(x as nat) + t1));
            assert((seq!['+'] + (enc_num(x as nat) + t1)).drop_first() =~= enc_num(x as nat) + t1);
        },
    }
    assert(parse_id(enc_id(n.id) + t1) == Some((n.id, t1)));
    lemma_str(n.path, t2);
    lemma_str(n.chunk, t3);
    match n.vector {
        None => {
            assert((seq!['-'] + t4).drop_first() =~= t4);
        },
        Some(v) => {
            lemma_u32s(v, t4);
            lemma_num(v.len(), enc_u32s(v) + t4);
            let body = enc_num(v.len()) + (enc_u32s(v) + t4);
            assert(enc_vector(n.vector) + t4 =~= seq!['+'] + body);
            assert((seq!['+'] + body).drop_first() =~= body);
        },
    }
    assert(parse_vector(t3) == Some((n.vector, t4)));
    let empty = Seq::<char>::empty();
    lemma_pairs(n.metadata, empty);
    lemma_num(n.metadata.len(), enc_pairs(n.metadata) + empty);
    assert(t4 =~= enc_num(n.metadata.len()) + (enc_pairs(n.metadata) + empty));
    assert(parse_metadata(t4) == Some((n.metadata, empty)));
}

proof fn lemma_u32s_push(v: Seq<u32>, x: u32)
    ensures
        enc_u32s(v.push(x)) == enc_u32s(v) + enc_num(x as nat),
    decreases v.len(),
{
    if v.len() == 0 {
        assert(v.push(x).drop_first() =~= Seq::<u32>::empty());
        assert(enc_u32s(v) =~= Seq::<char>::empty());
        assert(enc_u32s(v.push(x).drop_first()) =~= Seq::<char>::empty());
        assert(enc_u32s(v.push(x)) =~= enc_u32s(v) + enc_num(x as nat));
    } else {
        lemma_u32s_push(v.drop_first(), x);
        assert(v.push(x).drop_first() =~= v.drop_first().push(x));
        assert(v.push(x)[0] == v[0]);
        assert(enc_u32s(v.push(x)) == enc_num(v[0] as nat) + enc_u32s(v.drop_first().push(x)));
        assert(enc_u32s(v.push(x)) =~= enc_u32s(v) + enc_num(x as nat));
    }
}

proof fn lemma_pairs_push(m: Seq<(Seq<char>, Seq<char>)>, p: (Seq<char>, Seq<char>))
    ensures
        enc_pairs(m.push(p)) == enc_pairs(m) + (enc_str(p.0) + enc_str(p.1)),
    decreases m.len(),
{
    if m.len() == 0 {
        assert(m.push(p).drop_first() =~= Seq::<(Seq<char>, Seq<char>)>::empty());
        assert(enc_pairs(m) =~= Seq::<char>::empty());
        assert(enc_pairs(m.push(p).drop_first()) =~= Seq::<char>::empty());
        assert(enc_pairs(m.push(p)) =~= enc_pairs(m) + (enc_str(p.0) + enc_str(p.1)));
    } else {
        lemma_pairs_push(m.drop_first(), p);
        assert(m.push(p).drop_first() =~= m.drop_first().push(p));
        assert(m.push(p)[0] == m[0]);
        assert(enc_pairs(m.push(p)) == enc_str(m[0].0) + (enc_str(m[0].1) + enc_pairs(
            m.drop_first().push(p),
        )));
        assert(enc_pairs(m.push(p)) =~= enc_pairs(m) + (enc_str(p.0) + enc_str(p.1)));
    }
}

fn digit_str(d: u64) -> (r: &'static str)
    requires
        d < 10,
    ensures
        r@ == seq![digit_of(d as nat)],
{
    if d == 0 {
        proof { reveal_strlit("0"); }
        "0"
    } else if d == 1 {
        proof { reveal_strlit("1"); }
        "1"
    } else if d == 2 {
        proof { reveal_strlit("2"); }
        "2"
    } else if d == 3 {
        proof { reveal_strlit("3"); }
        "3"
    } else if d == 4 {
        proof { reveal_strlit("4"); }
        "4"
    } else if d == 5 {
        proof { reveal_strlit("5"); }
        "5"
    } else if d == 6 {
        proof { reveal_strlit("6"); }
        "6"
    } else if d == 7 {
        proof { reveal_strlit("7"); }
        "7"
    } else if d == 8 {
        proof { reveal_strlit("8"); }
        "8"
    } else {
        proof { reveal_strlit("9"); }
        "9"
    }
}

pub(crate) fn push_decimal(out: &mut String, n: u64)
    ensures
        final(out)@ == old(out)@ + decimal(n as nat),
    decreases n,
{
    let ghost start = out@;
    if n >= 10 {
        push_decimal(out, n / 10);
    }
    out.append(digit_str(n % 10));
    proof {
        if n >= 10 {
            assert(out@ =~= start + decimal(n as nat));
        } else {
            assert(out@ =~= start + decimal(n as nat));
        }
    }
}

pub(crate) fn push_mark(out: &mut String, c: &str)
    ensures
        final(out)@ == old(out)@ + c@,
{
    out.append(c);
}

fn push_num(out: &mut String, n: u64)
    ensures
        final(out)@ == old(out)@ + enc_num(n as nat),
{
    let ghost start = out@;
    push_decimal(out, n);
    proof { reveal_strlit(":"); }
    push_mark(out, ":");
    assert(out@ =~= start + enc_num(n as nat));
}

fn push_str(out: &mut String, s: &str)
    ensures
        final(out)@ == old(out)@ + enc_str(s@),
{
    let ghost start = out@;
    let n = s.unicode_len();
    push_num(out, n as u64);
    out.append(s);
    assert(out@ =~= start + enc_str(s@));
}

fn push_id(out: &mut String, id: Option<u64>)
    ensures
        final(out)@ == old(out)@ + enc_id(id),
{
    let ghost start = out@;
    proof {
        reveal_strlit("-");
        reveal_strlit("+");
    }
    match id {
        None => push_mark(out, "-"),
        Some(n) => {
            push_mark(out, "+");
            push_num(out, n);
        },
    }
    assert(out@ =~= start + enc_id(id));
}

fn push_vector(out: &mut String, vector: &Option<Vec<u32>>)
    ensures
        final(out)@ == old(out)@ + enc_vector(
            match vector {
                Some(v) => Some(v@),
                None => None,
            },
        ),
{
    let ghost start = out@;
    proof {
        reveal_strlit("-");
        reveal_strlit("+");
    }
    match vector {
        None => {
            push_mark(out, "-");
            assert(out@ =~= start + enc_vector(None));
        },
        Some(v) => {
            push_mark(out, "+");
            push_num(out, v.len() as u64);
            let ghost base = out@;
            let mut i: usize = 0;
            while i < v.len()
                invariant
                    i <= v@.len(),
                    out@ == base + enc_u32s(v@.take(i as int)),
                decreases v@.len() - i,
            {
                proof { lemma_u32s_push(v@.take(i as int), v@[i as int]); }
                push_num(out, v[i] as u64);
                assert(v@.take(i + 1) =~= v@.take(i as int).push(v@[i as int]));
                i = i + 1;
            }
            assert(v@.take(i as int) =~= v@);
            assert(out@ =~= start + enc_vector(Some(v@)));
        },
    }
}

fn push_metadata(out: &mut String, m: &Vec<(String, String)>)
    ensures
        final(out)@ == old(out)@ + enc_metadata(crate::node::metadata_view(m@)),
{
    let ghost start = out@;
    push_num(out, m.len() as u64);
    let ghost base = out@;
    let ghost mv = crate::node::metadata_view(m@);
    let mut j: usize = 0;
    while j < m.len()
        invariant
            j <= m@.len(),
            mv == crate::node::metadata_view(m@),
            out@ == base + enc_pairs(mv.take(j as int)),
        decreases m@.len() - j,
    {
        proof { lemma_pairs_push(mv.take(j as int), mv[j as int]); }
        push_str(out, m[j].0.as_str());
        push_str(out, m[j].1.as_str());
        assert(mv.take(j + 1) =~= mv.take(j as int).push(mv[j as int]));
        j = j + 1;
    }
    assert(mv.take(j as int) =~= mv);
    assert(out@ =~= start + enc_metadata(mv));
}

/// Encodes a node as text that [`decode_node`] reads back.
pub fn encode_node(node: &Node) -> (r: String)
    ensures
        r@ == encode(node@),
{
    let mut out = String::new();
    push_id(&mut out, node.id);
    push_str(&mut out, node.path.as_str());
    push_str(&mut out, node.chunk.as_str());
    push_vector(&mut out, &node.vector);
    push_metadata(&mut out, &node.metadata);
    assert(out@ =~= encode(node@));
    out
}

proof fn lemma_value_none(d: Seq<char>, k: int)
    requires
        0 <= k <= d.len(),
        digits_value(d.take(k)) is None,
    ensures
        digits_value(d) is None,
    decreases d.len(),
{
    if k < d.len() {
        assert(d.drop_last().take(k) =~= d.take(k));
        lemma_value_none(d.drop_last(), k);
    } else {
        assert(d.take(k) =~= d);
    }
}

fn read_num(s: &str, len: usize, pos: usize) -> (r: Option<(u64, usize)>)
    requires
        len == s@.len(),
        pos <= len,
    ensures
        match r {
            Some((x, p)) => p <= len && parse_num(s@.skip(pos as int)) == Some(
                (x as nat, s@.skip(p as int)),
            ),
            None => parse_num(s@.skip(pos as int)) is None,
        },
{
    let mut i: usize = pos;
    let mut acc: u64 = 0;
    assert(s@.subrange(pos as int, pos as int) =~= Seq::<char>::empty());
    assert(s@.subrange(pos as int, pos as int) + take_digits(s@.skip(pos as int)).0 =~= take_digits(
        s@.skip(pos as int),
    ).0);
    while i < len
        invariant
            pos <= i <= len,
            len == s@.len(),
            digits_value(s@.subrange(pos as int, i as int)) == Some(acc as nat),
            take_digits(s@.skip(pos as int)) == (
                s@.subrange(pos as int, i as int) + take_digits(s@.skip(i as int)).0,
                take_digits(s@.skip(i as int)).1,
            ),
        ensures
            pos <= i <= len,
            digits_value(s@.subrange(pos as int, i as int)) == Some(acc as nat),
            take_digits(s@.skip(pos as int)) == (
                s@.subrange(pos as int, i as int) + take_digits(s@.skip(i as int)).0,
                take_digits(s@.skip(i as int)).1,
            ),
            i == len || !is_digit(s@[i as int]),
        decreases len - i,
    {
        let c = s.get_char(i);
        if !('0' <= c && c <= '9') {
            break;
        }
        let ghost t = s@.skip(i as int);
        assert(t[0] == c);
        assert(t.drop_first() =~= s@.skip(i + 1));
        let ghost cur = s@.subrange(pos as int, i + 1);
        assert(cur.drop_last() =~= s@.subrange(pos as int, i as int));
        assert(cur.last() == c);
        assert(s@.subrange(pos as int, i as int) + (seq![c] + take_digits(s@.skip(i + 1)).0)
            =~= cur + take_digits(s@.skip(i + 1)).0);
        let d = (c as u32 - '0' as u32) as u64;
        let next: u128 = (acc as u128) * 10 + (d as u128);
        if next > u64::MAX as u128 {
            proof {
                let full = take_digits(s@.skip(pos as int)).0;
                assert(full.take(cur.len() as int) =~= cur);
                lemma_value_none(full, cur.len() as int);
            }
            return None;
        }
        acc = next as u64;
        i = i + 1;
    }
    let ghost t = s@.skip(i as int);
    assert(i < len ==> t[0] == s@[i as int]);
    assert(take_digits(t) == (Seq::<char>::empty(), t));
    assert(s@.subrange(pos as int, i as int) + Seq::<char>::empty() =~= s@.subrange(
        pos as int,
        i as int,
    ));
    if i == pos || i == len {
        return None;
    }
    if s.get_char(i) != ':' {
        return None;
    }
    assert(t.drop_first() =~= s@.skip(i + 1));
    Some((acc, i + 1))
}

fn read_str(s: &str, len: usize, pos: usize) -> (r: Option<(String, usize)>)
    requires
        len == s@.len(),
        pos <= len,
    ensures
        match r {
            Some((t, p)) => p <= len && parse_str(s@.skip(pos as int)) == Some((t@, s@.skip(p as int))),
            None => parse_str(s@.skip(pos as int)) is None,
        },
{
    match read_num(s, len, pos) {
        None => None,
        Some((n, p)) => {
            if n > (len - p) as u64 {
                return None;
            }
            let e = p + n as usize;
            let sub = s.substring_char(p, e);
            assert(s@.skip(p as int).take(n as int) =~= s@.subrange(p as int, e as int));
            assert(s@.skip(p as int).skip(n as int) =~= s@.skip(e as int));
            Some((String::from_str(sub), e))
        },
    }
}

fn read_id(s: &str, len: usize, pos: usize) -> (r: Option<(Option<u64>, usize)>)
    requires
        len == s@.len(),
        pos <= len,
    ensures
        match r {
            Some((id, p)) => p <= len && parse_id(s@.skip(pos as int)) == Some((id, s@.skip(p as int))),
            None => parse_id(s@.skip(pos as int)) is None,
        },
{
    if pos == len {
        return None;
    }
    let c = s.get_char(pos);
    assert(s@.skip(pos as int).drop_first() =~= s@.skip(pos + 1));
    if c == '-' {
        Some((None, pos + 1))
    } else if c == '+' {
        match read_num(s, len, pos + 1) {
            None => None,
            Some((n, p)) => Some((Some(n), p)),
        }
    } else {
        None
    }
}

fn read_vector(s: &str, len: usize, pos: usize) -> (r: Option<(Option<Vec<u32>>, usize)>)
    requires
        len == s@.len(),
        pos <= len,
    ensures
        match r {
            Some((v, p)) => p <= len && parse_vector(s@.skip(pos as int)) == Some(
                (
                    match v {
                        Some(v) => Some(v@),
                        None => None,
                    },
                    s@.skip(p as int),
                ),
            ),
            None => parse_vector(s@.skip(pos as int)) is None,
        },
{
    if pos == len {
        return None;
    }
    let c = s.get_char(pos);
    assert(s@.skip(pos as int).drop_first() =~= s@.skip(pos + 1));
    if c == '-' {
        return Some((None, pos + 1));
    } else if c != '+' {
        return None;
    }
    let (n, start) = match read_num(s, len, pos + 1) {
        None => return None,
        Some(x) => x,
    };
    let mut out: Vec<u32> = Vec::new();
    let mut p: usize = start;
    let mut i: u64 = 0;
    while i < n
        invariant
            i <= n,
            p <= len,
            len == s@.len(),
            s@.skip(pos as int).len() > 0 && s@.skip(pos as int)[0] == '+',
            parse_num(s@.skip(pos as int).drop_first()) == Some((n as nat, s@.skip(start as int))),
            parse_u32s(s@.skip(start as int), n as nat) == match parse_u32s(
                s@.skip(p as int),
                (n - i) as nat,
            ) {
                Some((xs, r)) => Some((out@ + xs, r)),
                None => None,
            },
        decreases n - i,
    {
        let ghost rem = (n - i) as nat;
        assert(rem > 0);
        match read_num(s, len, p) {
            None => {
                assert(parse_u32s(s@.skip(p as int), rem) is None);
                return None;
            },
            Some((x, p2)) => {
                if x > u32::MAX as u64 {
                    assert(parse_u32s(s@.skip(p as int), rem) is None);
                    return None;
                }
                let ghost before = out@;
                out.push(x as u32);
                proof {
                    match parse_u32s(s@.skip(p2 as int), (rem - 1) as nat) {
                        Some((xs, r)) => {
                            assert(before + (seq![x as u32] + xs) =~= out@ + xs);
                        },
                        None => {},
                    }
                }
                p = p2;
                i = i + 1;
            },
        }
    }
    assert(out@ + Seq::<u32>::empty() =~= out@);
    Some((Some(out), p))
}

fn read_metadata(s: &str, len: usize, pos: usize) -> (r: Option<(Vec<(String, String)>, usize)>)
    requires
        len == s@.len(),
        pos <= len,
    ensures
        match r {
            Some((m, p)) => p <= len && parse_metadata(s@.skip(pos as int)) == Some(
                (crate::node::metadata_view(m@), s@.skip(p as int)),
            ),
            None => parse_metadata(s@.skip(pos as int)) is None,
        },
{
    let (n, start) = match read_num(s, len, pos) {
        None => return None,
        Some(x) => x,
    };
    let mut out: Vec<(String, String)> = Vec::new();
    let mut p: usize = start;
    let mut i: u64 = 0;
    assert(crate::node::metadata_view(out@) =~= Seq::<(Seq<char>, Seq<char>)>::empty());
    while i < n
        invariant
            i <= n,
            p <= len,
            len == s@.len(),
            parse_num(s@.skip(pos as int)) == Some((n as nat, s@.skip(start as int))),
            parse_pairs(s@.skip(start as int), n as nat) == match parse_pairs(
                s@.skip(p as int),
                (n - i) as nat,
            ) {
                Some((ms, r)) => Some((crate::node::metadata_view(out@) + ms, r)),
                None => None,
            },
        decreases n - i,
    {
        let ghost rem = (n - i) as nat;
        assert(rem > 0);
        let (k, p1) = match read_str(s, len, p) {
            None => {
                assert(parse_pairs(s@.skip(p as int), rem) is None);
                return None;
            },
            Some(x) => x,
        };
        let (v, p2) = match read_str(s, len, p1) {
            None => {
                assert(parse_pairs(s@.skip(p as int), rem) is None);
                return None;
            },
            Some(x) => x,
        };
        let ghost before = crate::node::metadata_view(out@);
        out.push((k, v));
        assert(crate::node::metadata_view(out@) =~= before.push((k@, v@)));
        proof {
            match parse_pairs(s@.skip(p2 as int), (rem - 1) as nat) {
                Some((ms, r)) => {
                    assert(before + (seq![(k@, v@)] + ms) =~= before.push((k@, v@)) + ms);
                },
                None => {},
            }
        }
        p = p2;
        i = i + 1;
    }
    assert(crate::node::metadata_view(out@) + Seq::<(Seq<char>, Seq<char>)>::empty()
        =~= crate::node::metadata_view(out@));
    Some((out, p))
}

/// Reads a node back from its encoding; `None` when `s` encodes no node.
pub fn decode_node(s: &str) -> (r: Option<Node>)
    ensures
        match decode(s@) {
            Some(n) => r matches Some(x) && x@ == n,
            None => r is None,
        },
{
    let len = s.unicode_len();
    assert(s@.skip(0) =~= s@);
    let (id, p1) = match read_id(s, len, 0) {
        None => return None,
        Some(x) => x,
    };
    let (path, p2) = match read_str(s, len, p1) {
        None => return None,
        Some(x) => x,
    };
    let (chunk, p3) = match read_str(s, len, p2) {
        None => return None,
        Some(x) => x,
    };
    let (vector, p4) = match read_vector(s, len, p3) {
        None => return None,
        Some(x) => x,
    };
    let (metadata, p5) = match read_metadata(s, len, p4) {
        None => return None,
        Some(x) => x,
    };
    if p5 != len {
        return None;
    }
    Some(Node { id, path, chunk, vector, metadata })
}

} // verus!
