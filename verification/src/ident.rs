use vstd::prelude::*;

use crate::record::Kind;
use crate::text::{
    dec_digit, lemma_dec_digit_digit_val, lemma_dec_value_nonzero,
    dec_rep, dec_value, digit_val, is_dec_digit, lemma_dec_rep_canonical,
    lemma_dec_value_dec_rep, lemma_dec_value_prefix_mono, push_char, push_dec,
};

verus! {

/// A store-issued record handle: the kind it belongs to and the numeric
/// slot the store assigned on insert.  Its canonical string form is the
/// kind tag, an `@`, and the slot number in decimal, e.g. `coffee@12`.
#[derive(Clone, Copy, PartialEq, Eq, Structural, Debug)]
pub struct Identifier {
    pub kind: Kind,
    pub num: u64,
}

/// The tag naming a resource kind on the wire.
pub open spec fn kind_tag(k: Kind) -> Seq<char> {
    match k {
        Kind::Coffee => seq!['c', 'o', 'f', 'f', 'e', 'e'],
        Kind::Beer => seq!['b', 'e', 'e', 'r'],
    }
}

/// The canonical string form of an identifier.
pub open spec fn id_chars(id: Identifier) -> Seq<char> {
    kind_tag(id.kind) + seq!['@'] + dec_rep(id.num as nat)
}

/// Whether `t` is a canonical digit run denoting a slot number: made of
/// digits, nonempty, no leading zero, and small enough for a `u64`.
pub open spec fn canon_digits(t: Seq<char>) -> bool {
    &&& t.len() >= 1
    &&& (forall|i: int| 0 <= i < t.len() ==> is_dec_digit(#[trigger] t[i]))
    &&& (t.len() >= 2 ==> t[0] != '0')
    &&& dec_value(t) <= u64::MAX
}

/// Whether `s` opens with the tag of kind `k` followed by `@`.
pub open spec fn tag_prefixed(s: Seq<char>, k: Kind) -> bool {
    let p = kind_tag(k) + seq!['@'];
    s.len() >= p.len() && s.take(p.len() as int) == p
}

/// The identifier a string denotes, if it is well formed: a kind tag,
/// `@`, and a canonical slot number.  Anything else denotes nothing.
pub open spec fn parse_spec(s: Seq<char>) -> Option<Identifier> {
    if tag_prefixed(s, Kind::Coffee) && canon_digits(s.skip(7)) {
        Some(Identifier { kind: Kind::Coffee, num: dec_value(s.skip(7)) as u64 })
    } else if tag_prefixed(s, Kind::Beer) && canon_digits(s.skip(5)) {
        Some(Identifier { kind: Kind::Beer, num: dec_value(s.skip(5)) as u64 })
    } else {
        None
    }
}

impl Identifier {
    /// The canonical string form of this identifier.
    pub fn serialize(&self) -> (out: String)
        ensures
            out@ == id_chars(*self),
    {
        let mut out = String::new();
        match self.kind {
            Kind::Coffee => out.append("coffee"),
            Kind::Beer => out.append("beer"),
        }
        proof {
            reveal_strlit("coffee");
            reveal_strlit("beer");
            assert(("coffee")@ =~= kind_tag(Kind::Coffee));
            assert(("beer")@ =~= kind_tag(Kind::Beer));
        }
        push_char(&mut out, '@');
        push_dec(&mut out, self.num);
        proof {
            assert(out@ =~= id_chars(*self));
        }
        out
    }
}

/// Whether `s` opens with the tag of kind `k` followed by `@`.
fn has_tag(s: &str, n: usize, k: Kind) -> (b: bool)
    requires
        n == s@.len(),
    ensures
        b == tag_prefixed(s@, k),
{
    let tag: &str = match k {
        Kind::Coffee => "coffee@",
        Kind::Beer => "beer@",
    };
    proof {
        reveal_strlit("coffee@");
        reveal_strlit("beer@");
        assert(("coffee@")@ =~= kind_tag(Kind::Coffee) + seq!['@']);
        assert(("beer@")@ =~= kind_tag(Kind::Beer) + seq!['@']);
    }
    let m = tag.unicode_len();
    if n < m {
        return false;
    }
    let mut i: usize = 0;
    while i < m
        invariant
            0 <= i <= m,
            m == tag@.len(),
            m <= n == s@.len(),
            tag@ == kind_tag(k) + seq!['@'],
            forall|j: int| 0 <= j < i ==> s@[j] == tag@[j],
        decreases m - i,
    {
        if s.get_char(i) != tag.get_char(i) {
            proof {
                assert(s@.take(m as int)[i as int] != tag@[i as int]);
            }
            return false;
        }
        i = i + 1;
    }
    proof {
        assert(s@.take(m as int) =~= tag@);
    }
    true
}

/// Reads a canonical slot number from position `from` to the end of `s`.
fn parse_digits(s: &str, n: usize, from: usize) -> (r: Option<u64>)
    requires
        from <= n,
        n == s@.len(),
    ensures
        match r {
            Some(v) => canon_digits(s@.skip(from as int)) && v == dec_value(
                s@.skip(from as int),
            ) as u64,
            None => !canon_digits(s@.skip(from as int)),
        },
{
    let ghost t = s@.skip(from as int);
    if from == n {
        return None;
    }
    let c0 = s.get_char(from);
    if c0 == '0' && n - from >= 2 {
        // a longer run opening with zero is not canonical
        return None;
    }
    let mut acc: u64 = 0;
    let mut i: usize = from;
    while i < n
        invariant
            from <= i <= n,
            n == s@.len(),
            t == s@.skip(from as int),
            forall|j: int| 0 <= j < i - from ==> is_dec_digit(#[trigger] t[j]),
            acc == dec_value(t.take(i - from)),
        decreases n - i,
    {
        let c = s.get_char(i);
        let cv = c as u32;
        if cv < 48 || cv > 57 {
            proof {
                assert(t[i - from] == c);
                assert(!is_dec_digit(c));
            }
            return None;
        }
        let d: u64 = (cv - 48) as u64;
        if acc > (u64::MAX - d) / 10 {
            proof {
                let k = i + 1 - from;
                assert(t.take(k).drop_last() =~= t.take(i - from));
                assert(t.take(k).last() == t[i - from] == c);
                assert(dec_value(t.take(k)) == acc * 10 + d);
                assert(acc * 10 + d > u64::MAX) by (nonlinear_arith)
                    requires
                        acc > (u64::MAX - d) / 10,
                        d <= 9,
                        acc <= u64::MAX,
                ;
                lemma_dec_value_prefix_mono(t, k);
            }
            return None;
        }
        proof {
            assert(acc * 10 + d <= u64::MAX) by (nonlinear_arith)
                requires
                    acc <= (u64::MAX - d) / 10,
                    d <= 9,
            ;
            let k = i + 1 - from;
            assert(t.take(k).drop_last() =~= t.take(i - from));
            assert(t.take(k).last() == t[i - from] == c);
            assert(digit_val(c) == d);
        }
        acc = acc * 10 + d;
        i = i + 1;
    }
    proof {
        assert(t.take(n - from) =~= t);
        assert(t[0] == c0);
        if t.len() >= 2 {
            assert(t[0] != '0');
        }
    }
    Some(acc)
}

/// Reads an identifier of either kind from its canonical string form.
/// Malformed strings (the empty string, a missing or unknown tag, a
/// non-canonical number) denote nothing and are rejected.
pub fn parse_id(s: &str) -> (r: Option<Identifier>)
    ensures
        r == parse_spec(s@),
{
    let n = s.unicode_len();
    if has_tag(s, n, Kind::Coffee) {
        match parse_digits(s, n, 7) {
            Some(v) => Some(Identifier { kind: Kind::Coffee, num: v }),
            None => {
                proof {
                    assert(s@.take(7)[0] == s@[0]);
                    assert((kind_tag(Kind::Coffee) + seq!['@'])[0] == 'c');
                    if tag_prefixed(s@, Kind::Beer) {
                        assert(s@.take(5)[0] == s@[0]);
                        assert((kind_tag(Kind::Beer) + seq!['@'])[0] == 'b');
                        assert(false);
                    }
                }
                None
            },
        }
    } else if has_tag(s, n, Kind::Beer) {
        match parse_digits(s, n, 5) {
            Some(v) => Some(Identifier { kind: Kind::Beer, num: v }),
            None => None,
        }
    } else {
        None
    }
}

/// A canonical digit run is the canonical representation of its value:
/// no two canonical runs denote the same number.
proof fn lemma_canon_digits_unique(t: Seq<char>)
    requires
        canon_digits(t),
    ensures
        t == dec_rep(dec_value(t)),
    decreases t.len(),
{
    let n = dec_value(t);
    if t.len() == 1 {
        lemma_dec_digit_digit_val(t[0]);
        assert(t.last() == t[0]);
        assert(dec_value(t) == dec_value(t.drop_last()) * 10 + digit_val(t.last()));
        assert(t.drop_last() =~= Seq::<char>::empty());
        assert(dec_value(Seq::<char>::empty()) == 0);
        assert(n == digit_val(t[0]));
        assert(t =~= dec_rep(n));
    } else {
        let t0 = t.drop_last();
        let d = digit_val(t.last());
        assert(forall|i: int| 0 <= i < t0.len() ==> t0[i] == t[i]);
        assert(t0[0] == t[0] && t[0] != '0');
        lemma_dec_digit_digit_val(t.last());
        let v0 = dec_value(t0);
        assert(n == v0 * 10 + d);
        assert(v0 <= v0 * 10 + d);
        assert(canon_digits(t0));
        lemma_canon_digits_unique(t0);
        lemma_dec_value_nonzero(t0);
        assert(n >= 10);
        assert(n / 10 == v0 && n % 10 == d) by (nonlinear_arith)
            requires
                n == v0 * 10 + d,
                0 <= d < 10,
                v0 >= 0,
        ;
        assert(dec_rep(n) == dec_rep(v0).push(dec_digit(d)));
        assert(t =~= t0.push(t.last()));
        assert(dec_digit(d) == t.last());
    }
}

/// The converse of the round trip: a string parses to `id` only when it
/// is exactly the canonical string of `id`.  Together with the round
/// trip this makes the codec a bijection between well-formed identifier
/// strings and identifiers.
pub proof fn lemma_parse_sound(s: Seq<char>, id: Identifier)
    requires
        parse_spec(s) == Some(id),
    ensures
        s == id_chars(id),
{
    if tag_prefixed(s, Kind::Coffee) && canon_digits(s.skip(7)) {
        let t = s.skip(7);
        lemma_canon_digits_unique(t);
        assert(id.num as nat == dec_value(t));
        assert(s =~= s.take(7) + t);
        assert(s =~= id_chars(id));
    } else {
        let t = s.skip(5);
        lemma_canon_digits_unique(t);
        assert(id.num as nat == dec_value(t));
        assert(s =~= s.take(5) + t);
        assert(s =~= id_chars(id));
    }
}

/// The identifier round trip: the canonical string of any identifier
/// parses back to that identifier.
pub proof fn lemma_identifier_round_trip(id: Identifier)
    ensures
        parse_spec(id_chars(id)) == Some(id),
{
    let s = id_chars(id);
    lemma_dec_rep_canonical(id.num as nat);
    lemma_dec_value_dec_rep(id.num as nat);
    match id.kind {
        Kind::Coffee => {
            assert(s.take(7) =~= kind_tag(Kind::Coffee) + seq!['@']);
            assert(s.skip(7) =~= dec_rep(id.num as nat));
        },
        Kind::Beer => {
            assert(s[0] == 'b');
            if tag_prefixed(s, Kind::Coffee) {
                assert(s.take(7)[0] == 'c');
                assert(false);
            }
            assert(s.take(5) =~= kind_tag(Kind::Beer) + seq!['@']);
            assert(s.skip(5) =~= dec_rep(id.num as nat));
        },
    }
}

} // verus!
