//! Verified building blocks for emitting the JSON wire format: decimal text
//! of integers, JSON string escaping, and comma-joining of encoded items.

use vstd::prelude::*;
use vstd::string::StrSliceExecFns;
use vstd::string::StringExecFns;

verus! {

/// The decimal digit character of `d`, for `0 <= d <= 9`.
pub open spec fn digit_char(d: int) -> char {
    if d == 0 {
        '0'
    } else if d == 1 {
        '1'
    } else if d == 2 {
        '2'
    } else if d == 3 {
        '3'
    } else if d == 4 {
        '4'
    } else if d == 5 {
        '5'
    } else if d == 6 {
        '6'
    } else if d == 7 {
        '7'
    } else if d == 8 {
        '8'
    } else {
        '9'
    }
}

/// Decimal text of a non-negative integer, without sign or leading zeros
/// (`0` is written `"0"`).
pub open spec fn spec_udigits(n: nat) -> Seq<char>
    decreases n,
{
    if n < 10 {
        seq![digit_char(n as int)]
    } else {
        spec_udigits(n / 10) + seq![digit_char((n % 10) as int)]
    }
}

/// Decimal text of an integer: a `-` sign for negative values, then the
/// digits of the magnitude.
pub open spec fn spec_int_text(n: int) -> Seq<char> {
    if n < 0 {
        seq!['-'] + spec_udigits((-n) as nat)
    } else {
        spec_udigits(n as nat)
    }
}

fn digit_str(d: u64) -> (s: &'static str)
    requires
        d < 10,
    ensures
        s@ == seq![digit_char(d as int)],
{
    proof {
        reveal_strlit("0");
        reveal_strlit("1");
        reveal_strlit("2");
        reveal_strlit("3");
        reveal_strlit("4");
        reveal_strlit("5");
        reveal_strlit("6");
        reveal_strlit("7");
        reveal_strlit("8");
        reveal_strlit("9");
        assert("0"@ =~= seq!['0']);
        assert("1"@ =~= seq!['1']);
        assert("2"@ =~= seq!['2']);
        assert("3"@ =~= seq!['3']);
        assert("4"@ =~= seq!['4']);
        assert("5"@ =~= seq!['5']);
        assert("6"@ =~= seq!['6']);
        assert("7"@ =~= seq!['7']);
        assert("8"@ =~= seq!['8']);
        assert("9"@ =~= seq!['9']);
    }
    if d == 0 {
        "0"
    } else if d == 1 {
        "1"
    } else if d == 2 {
        "2"
    } else if d == 3 {
        "3"
    } else if d == 4 {
        "4"
    } else if d == 5 {
        "5"
    } else if d == 6 {
        "6"
    } else if d == 7 {
        "7"
    } else if d == 8 {
        "8"
    } else {
        "9"
    }
}

/// Appends the decimal digits of `n` to `out`.
pub fn push_udigits(out: &mut String, n: u64)
    ensures
        final(out)@ == old(out)@ + spec_udigits(n as nat),
    decreases n,
{
    if n >= 10 {
        push_udigits(out, n / 10);
        out.append(digit_str(n % 10));
        proof {
            assert(out@ =~= old(out)@ + spec_udigits(n as nat));
        }
    } else {
        out.append(digit_str(n));
    }
}

/// Appends the decimal text of `n` to `out`.
pub fn push_i64(out: &mut String, n: i64)
    ensures
        final(out)@ == old(out)@ + spec_int_text(n as int),
{
    if n < 0 {
        out.append("-");
        proof {
            reveal_strlit("-");
            assert("-"@ =~= seq!['-']);
        }
        let wide: i128 = n as i128;
        let mag: u64 = (-wide) as u64;
        assert(mag as nat == (-(n as int)) as nat);
        push_udigits(out, mag);
        proof {
            assert(out@ =~= old(out)@ + spec_int_text(n as int));
        }
    } else {
        push_udigits(out, n as u64);
    }
}

/// The lower-case hexadecimal digit character of `v`, for `0 <= v <= 15`.
pub open spec fn hex_char(v: int) -> char {
    if v < 10 {
        digit_char(v)
    } else if v == 10 {
        'a'
    } else if v == 11 {
        'b'
    } else if v == 12 {
        'c'
    } else if v == 13 {
        'd'
    } else if v == 14 {
        'e'
    } else {
        'f'
    }
}

/// How one character appears inside a JSON string literal: quote, backslash
/// and the named control characters get a two-character escape, the other
/// control characters a `\u00..` escape, and everything else stands for
/// itself.
pub open spec fn escape_char(c: char) -> Seq<char> {
    if c == '"' {
        seq!['\\', '"']
    } else if c == '\\' {
        seq!['\\', '\\']
    } else if c == '\n' {
        seq!['\\', 'n']
    } else if c == '\r' {
        seq!['\\', 'r']
    } else if c == '\t' {
        seq!['\\', 't']
    } else if (c as u32) < 32 {
        seq!['\\', 'u', '0', '0', hex_char((c as u32) as int / 16), hex_char((c as u32) as int % 16)]
    } else {
        seq![c]
    }
}

/// A whole character sequence as it appears inside a JSON string literal.
pub open spec fn escape_seq(s: Seq<char>) -> Seq<char>
    decreases s.len(),
{
    if s.len() == 0 {
        Seq::empty()
    } else {
        escape_char(s[0]) + escape_seq(s.skip(1))
    }
}

/// The text of a JSON string literal holding `s`: quotes around the escaped
/// characters.
pub open spec fn jstr(s: Seq<char>) -> Seq<char> {
    seq!['"'] + escape_seq(s) + seq!['"']
}

/// Escaping distributes over concatenation.
pub proof fn lemma_escape_seq_concat(a: Seq<char>, b: Seq<char>)
    ensures
        escape_seq(a + b) == escape_seq(a) + escape_seq(b),
    decreases a.len(),
{
    if a.len() == 0 {
        assert(a + b =~= b);
        assert(escape_seq(a) + escape_seq(b) =~= escape_seq(b));
    } else {
        assert((a + b).skip(1) =~= a.skip(1) + b);
        lemma_escape_seq_concat(a.skip(1), b);
        assert((a + b)[0] == a[0]);
        assert(escape_seq(a + b) =~= escape_seq(a) + escape_seq(b));
    }
}

/// A sequence of characters that escape to themselves escapes to itself.
pub proof fn lemma_escape_seq_plain(s: Seq<char>)
    requires
        forall|k: int| 0 <= k < s.len() ==> escape_char(s[k]) == seq![s[k]],
    ensures
        escape_seq(s) == s,
    decreases s.len(),
{
    if s.len() == 0 {
        assert(escape_seq(s) =~= s);
    } else {
        assert forall|k: int| 0 <= k < s.skip(1).len() implies escape_char(s.skip(1)[k]) == seq![
            s.skip(1)[k],
        ] by {
            assert(s.skip(1)[k] == s[k + 1]);
        }
        lemma_escape_seq_plain(s.skip(1));
        assert(escape_char(s[0]) == seq![s[0]]);
        assert(escape_seq(s) =~= s);
    }
}

/// Escaping a single character yields its escape text.
pub proof fn lemma_escape_seq_single(c: char)
    ensures
        escape_seq(seq![c]) == escape_char(c),
{
    assert(seq![c].skip(1) =~= Seq::<char>::empty());
    assert(escape_seq(Seq::<char>::empty()) =~= Seq::<char>::empty());
    assert(seq![c][0] == c);
    assert(escape_seq(seq![c]) =~= escape_char(c) + Seq::<char>::empty());
    assert(escape_char(c) + Seq::<char>::empty() =~= escape_char(c));
}

/// Already-encoded items joined with commas, as inside a JSON array or
/// object.
pub open spec fn join_comma(items: Seq<Seq<char>>) -> Seq<char>
    decreases items.len(),
{
    if items.len() == 0 {
        Seq::empty()
    } else if items.len() == 1 {
        items[0]
    } else {
        items[0] + seq![','] + join_comma(items.skip(1))
    }
}

/// Appending one item to a join appends a comma (unless the join was empty)
/// and the item.
pub proof fn lemma_join_comma_snoc(items: Seq<Seq<char>>, x: Seq<char>)
    ensures
        join_comma(items.push(x)) == (if items.len() == 0 {
            x
        } else {
            join_comma(items) + seq![','] + x
        }),
    decreases items.len(),
{
    if items.len() == 0 {
        assert(items.push(x).len() == 1);
        assert(items.push(x)[0] == x);
    } else if items.len() == 1 {
        assert(items.push(x).skip(1) =~= seq![x]);
        assert(join_comma(seq![x]) == x);
        assert(items.push(x)[0] == items[0]);
        assert(join_comma(items.push(x)) =~= join_comma(items) + seq![','] + x);
    } else {
        assert(items.push(x).skip(1) =~= items.skip(1).push(x));
        lemma_join_comma_snoc(items.skip(1), x);
        assert(items.push(x)[0] == items[0]);
        assert(join_comma(items.push(x)) =~= join_comma(items) + seq![','] + x);
    }
}

/// A join of `n` items holds at least `n - 1` characters: its commas.
pub proof fn lemma_join_comma_min_len(items: Seq<Seq<char>>)
    ensures
        join_comma(items).len() + 1 >= items.len(),
    decreases items.len(),
{
    if items.len() <= 1 {
    } else {
        lemma_join_comma_min_len(items.skip(1));
    }
}

fn is_plain_char(c: char) -> (r: bool)
    ensures
        r <==> escape_char(c) == seq![c],
{
    let v = c as u32;
    let plain = !(c == '"' || c == '\\' || v < 32);
    proof {
        if plain {
            assert(escape_char(c) =~= seq![c]);
        } else {
            assert(escape_char(c).len() != 1);
        }
    }
    plain
}

fn hex_str(v: u32) -> (s: &'static str)
    requires
        v < 16,
    ensures
        s@ == seq![hex_char(v as int)],
{
    if v < 10 {
        digit_str(v as u64)
    } else {
        proof {
            reveal_strlit("a");
            reveal_strlit("b");
            reveal_strlit("c");
            reveal_strlit("d");
            reveal_strlit("e");
            reveal_strlit("f");
            assert("a"@ =~= seq!['a']);
            assert("b"@ =~= seq!['b']);
            assert("c"@ =~= seq!['c']);
            assert("d"@ =~= seq!['d']);
            assert("e"@ =~= seq!['e']);
            assert("f"@ =~= seq!['f']);
        }
        if v == 10 {
            "a"
        } else if v == 11 {
            "b"
        } else if v == 12 {
            "c"
        } else if v == 13 {
            "d"
        } else if v == 14 {
            "e"
        } else {
            "f"
        }
    }
}

fn push_escape_of(out: &mut String, c: char)
    requires
        escape_char(c) != seq![c],
    ensures
        final(out)@ == old(out)@ + escape_char(c),
{
    proof {
        reveal_strlit("\\\"");
        reveal_strlit("\\\\");
        reveal_strlit("\\n");
        reveal_strlit("\\r");
        reveal_strlit("\\t");
        reveal_strlit("\\u00");
    }
    if c == '"' {
        out.append("\\\"");
        proof {
            assert("\\\""@ =~= escape_char(c));
        }
    } else if c == '\\' {
        out.append("\\\\");
        proof {
            assert("\\\\"@ =~= escape_char(c));
        }
    } else if c == '\n' {
        out.append("\\n");
        proof {
            assert("\\n"@ =~= escape_char(c));
        }
    } else if c == '\r' {
        out.append("\\r");
        proof {
            assert("\\r"@ =~= escape_char(c));
        }
    } else if c == '\t' {
        out.append("\\t");
        proof {
            assert("\\t"@ =~= escape_char(c));
        }
    } else {
        let v = c as u32;
        assert(v < 32);
        out.append("\\u00");
        proof {
            assert("\\u00"@ =~= seq!['\\', 'u', '0', '0']);
        }
        out.append(hex_str(v / 16));
        out.append(hex_str(v % 16));
        proof {
            assert(out@ =~= old(out)@ + escape_char(c));
        }
    }
}

/// Appends `s`, escaped as the body of a JSON string literal, to `out`.
pub fn push_json_escaped(out: &mut String, s: &str)
    ensures
        final(out)@ == old(out)@ + escape_seq(s@),
{
    let ghost orig: Seq<char> = out@;
    let len = s.unicode_len();
    let mut start: usize = 0;
    let mut i: usize = 0;
    while i < len
        invariant
            len == s@.len(),
            start <= i <= len,
            out@ == orig + escape_seq(s@.subrange(0, start as int)),
            forall|k: int| start <= k < i ==> escape_char(s@[k]) == seq![s@[k]],
        decreases len - i,
    {
        let c = s.get_char(i);
        if !is_plain_char(c) {
            out.append(s.substring_char(start, i));
            proof {
                let done = s@.subrange(0, start as int);
                let plain = s@.subrange(start as int, i as int);
                assert forall|k: int| 0 <= k < plain.len() implies escape_char(plain[k]) == seq![
                    plain[k],
                ] by {
                    assert(plain[k] == s@[start + k]);
                }
                lemma_escape_seq_concat(done, plain);
                lemma_escape_seq_plain(plain);
                assert(done + plain =~= s@.subrange(0, i as int));
                assert(out@ =~= orig + escape_seq(s@.subrange(0, i as int)));
            }
            push_escape_of(out, c);
            proof {
                lemma_escape_seq_concat(s@.subrange(0, i as int), seq![c]);
                lemma_escape_seq_single(c);
                assert(s@.subrange(0, i as int) + seq![c] =~= s@.subrange(0, i as int + 1));
                assert(out@ =~= orig + escape_seq(s@.subrange(0, i as int + 1)));
            }
            start = i + 1;
        }
        i = i + 1;
    }
    out.append(s.substring_char(start, len));
    proof {
        let done = s@.subrange(0, start as int);
        let plain = s@.subrange(start as int, len as int);
        assert forall|k: int| 0 <= k < plain.len() implies escape_char(plain[k]) == seq![
            plain[k],
        ] by {
            assert(plain[k] == s@[start + k]);
        }
        lemma_escape_seq_concat(done, plain);
        lemma_escape_seq_plain(plain);
        assert(done + plain =~= s@);
        assert(out@ =~= orig + escape_seq(s@));
    }
}

/// Appends the JSON string literal holding `s` to `out`.
pub fn push_json_string(out: &mut String, s: &str)
    ensures
        final(out)@ == old(out)@ + jstr(s@),
{
    proof {
        reveal_strlit("\"");
    }
    out.append("\"");
    push_json_escaped(out, s);
    out.append("\"");
    proof {
        assert("\""@ =~= seq!['"']);
        assert(out@ =~= old(out)@ + jstr(s@));
    }
}

/// Appends the decimal text of `n` to `out`.
pub fn push_i32(out: &mut String, n: i32)
    ensures
        final(out)@ == old(out)@ + spec_int_text(n as int),
{
    push_i64(out, n as i64);
}

} // verus!
