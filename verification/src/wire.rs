use vstd::prelude::*;

use crate::ident::{id_chars, kind_tag, Identifier};
use crate::record::{Kind, Record, RecordModel};
use crate::store::Store;
use crate::text::{dec_digit, dec_rep, push_char, push_dec};

verus! {

/// The hexadecimal digit character for a value below sixteen.
pub open spec fn hex_digit(d: nat) -> char {
    if d < 10 {
        dec_digit(d)
    } else if d == 10 {
        'a'
    } else if d == 11 {
        'b'
    } else if d == 12 {
        'c'
    } else if d == 13 {
        'd'
    } else if d == 14 {
        'e'
    } else {
        'f'
    }
}

/// How one character appears inside a JSON string literal: quote and
/// backslash are escaped, control characters become `\u00XX`, and
/// everything else stands for itself.
pub open spec fn esc_char(c: char) -> Seq<char> {
    if c == '"' {
        seq!['\\', '"']
    } else if c == '\\' {
        seq!['\\', '\\']
    } else if (c as u32) < 32 {
        seq!['\\', 'u', '0', '0', hex_digit((c as u32 / 16) as nat), hex_digit(
            (c as u32 % 16) as nat,
        )]
    } else {
        seq![c]
    }
}

/// The body of a JSON string literal holding `s`.
pub open spec fn json_escaped(s: Seq<char>) -> Seq<char>
    decreases s.len(),
{
    if s.len() == 0 {
        Seq::empty()
    } else {
        json_escaped(s.drop_last()) + esc_char(s.last())
    }
}

/// The JSON object for one record.
pub open spec fn record_json(r: RecordModel) -> Seq<char> {
    ("{\"brand\":\"")@ + json_escaped(r.brand) + ("\",\"size\":")@ + dec_rep(r.size as nat) + (
    ",\"time\":\"")@ + json_escaped(r.time) + ("\"}")@
}

/// The JSON envelope pairing an identifier with its record.
pub open spec fn entry_json(id: Identifier, r: RecordModel) -> Seq<char> {
    ("{\"id\":\"")@ + id_chars(id) + ("\",\"")@ + kind_tag(id.kind) + ("\":")@ + record_json(r) + (
    "}")@
}

/// The comma-separated envelopes for the entries of a scan, in order.
pub open spec fn entries_json(k: Kind, s: Seq<(u64, Record)>) -> Seq<char>
    decreases s.len(),
{
    if s.len() == 0 {
        Seq::empty()
    } else if s.len() == 1 {
        entry_json(Identifier { kind: k, num: s[0].0 }, s[0].1@)
    } else {
        entries_json(k, s.drop_last()) + seq![','] + entry_json(
            Identifier { kind: k, num: s.last().0 },
            s.last().1@,
        )
    }
}

/// The JSON body of a list response: the kind's plural key and the
/// envelopes of all live entries.
pub open spec fn list_json(k: Kind, s: Seq<(u64, Record)>) -> Seq<char> {
    ("{\"")@ + kind_tag(k) + ("s\":[")@ + entries_json(k, s) + ("]}")@
}

/// The JSON body of an error response.
pub open spec fn error_json(m: Seq<char>) -> Seq<char> {
    ("{\"message\":\"")@ + json_escaped(m) + ("\"}")@
}

/// The hexadecimal digit character for a value below sixteen.
fn hex_char(d: u32) -> (c: char)
    requires
        d < 16,
    ensures
        c == hex_digit(d as nat),
{
    if d == 0 {
        '0'
    } else if d == 1 {
        '1'
    } else if d == 2 {
        '2'
    } else if d == 3 {
        '3'
    } else if d == 4 {
        '4'
    } else if d == 5 {
        '5'
    } else if d == 6 {
        '6'
    } else if d == 7 {
        '7'
    } else if d == 8 {
        '8'
    } else if d == 9 {
        '9'
    } else if d == 10 {
        'a'
    } else if d == 11 {
        'b'
    } else if d == 12 {
        'c'
    } else if d == 13 {
        'd'
    } else if d == 14 {
        'e'
    } else {
        'f'
    }
}

/// Appends `s` in its JSON-escaped form.
fn push_escaped(out: &mut String, s: &str)
    ensures
        final(out)@ == old(out)@ + json_escaped(s@),
{
    let ghost init = old(out)@;
    let n = s.unicode_len();
    let mut i: usize = 0;
    while i < n
        invariant
            0 <= i <= n,
            n == s@.len(),
            out@ == init + json_escaped(s@.take(i as int)),
        decreases n - i,
    {
        let c = s.get_char(i);
        if c == '"' {
            push_char(out, '\\');
            push_char(out, '"');
        } else if c == '\\' {
            push_char(out, '\\');
            push_char(out, '\\');
        } else {
            let cv = c as u32;
            if cv < 32 {
                push_char(out, '\\');
                push_char(out, 'u');
                push_char(out, '0');
                push_char(out, '0');
                push_char(out, hex_char(cv / 16));
                push_char(out, hex_char(cv % 16));
            } else {
                push_char(out, c);
            }
        }
        proof {
            assert(s@.take(i + 1).drop_last() =~= s@.take(i as int));
            assert(s@.take(i + 1).last() == c);
            assert(out@ =~= init + json_escaped(s@.take(i + 1)));
        }
        i = i + 1;
    }
    proof {
        assert(s@.take(n as int) =~= s@);
    }
}

/// Appends the wire tag of a resource kind.
fn push_kind_tag(out: &mut String, k: Kind)
    ensures
        final(out)@ == old(out)@ + kind_tag(k),
{
    match k {
        Kind::Coffee => out.append("coffee"),
        Kind::Beer => out.append("beer"),
    }
    proof {
        reveal_strlit("coffee");
        reveal_strlit("beer");
        assert(("coffee")@ =~= kind_tag(Kind::Coffee));
        assert(("beer")@ =~= kind_tag(Kind::Beer));
    }
}

/// Appends the JSON object for one record.
fn push_record(out: &mut String, r: &Record)
    ensures
        final(out)@ == old(out)@ + record_json(r@),
{
    out.append("{\"brand\":\"");
    push_escaped(out, self_str(&r.brand));
    out.append("\",\"size\":");
    push_dec(out, r.size as u64);
    out.append(",\"time\":\"");
    push_escaped(out, self_str(&r.time));
    out.append("\"}");
    proof {
        assert(out@ =~= old(out)@ + record_json(r@));
    }
}

/// The borrowed form of a string.
fn self_str(s: &String) -> (r: &str)
    ensures
        r@ == s@,
{
    s.as_str()
}

/// Appends the JSON envelope for one entry.
fn push_entry(out: &mut String, id: &Identifier, r: &Record)
    ensures
        final(out)@ == old(out)@ + entry_json(*id, r@),
{
    out.append("{\"id\":\"");
    let id_s = id.serialize();
    out.append(self_str(&id_s));
    out.append("\",\"");
    push_kind_tag(out, id.kind);
    out.append("\":");
    push_record(out, r);
    out.append("}");
    proof {
        assert(out@ =~= old(out)@ + entry_json(*id, r@));
    }
}

/// The full JSON body of a list response over the store's live entries,
/// in store order.
pub fn render_list(store: &Store) -> (out: String)
    ensures
        out@ == list_json(store.kind, store.entries@),
{
    let ghost k = store.kind;
    let ghost es = store.entries@;
    let mut out = String::new();
    out.append("{\"");
    push_kind_tag(&mut out, store.kind);
    out.append("s\":[");
    let ghost head = out@;
    proof {
        assert(head =~= ("{\"")@ + kind_tag(k) + ("s\":[")@);
    }
    let n = store.entries.len();
    let mut i: usize = 0;
    while i < n
        invariant
            0 <= i <= n,
            n == es.len(),
            es == store.entries@,
            k == store.kind,
            out@ == head + entries_json(k, es.take(i as int)),
        decreases n - i,
    {
        if i > 0 {
            push_char(&mut out, ',');
        }
        let entry = &store.entries[i];
        let id = Identifier { kind: store.kind, num: entry.0 };
        push_entry(&mut out, &id, &entry.1);
        proof {
            assert(es.take(i + 1).last() == es[i as int]);
            assert(es.take(i + 1).drop_last() =~= es.take(i as int));
            if i == 0 {
                assert(entries_json(k, es.take(1)) == entry_json(
                    Identifier { kind: k, num: es[0].0 },
                    es[0].1@,
                ));
            }
            assert(out@ =~= head + entries_json(k, es.take(i + 1)));
        }
        i = i + 1;
    }
    out.append("]}");
    proof {
        assert(es.take(n as int) =~= es);
        assert(out@ =~= list_json(k, es));
    }
    out
}

/// The full JSON body of an error response carrying `m`.
pub fn render_error(m: &str) -> (out: String)
    ensures
        out@ == error_json(m@),
{
    let mut out = String::new();
    out.append("{\"message\":\"");
    push_escaped(&mut out, m);
    out.append("\"}");
    proof {
        assert(out@ =~= error_json(m@));
    }
    out
}

} // verus!
