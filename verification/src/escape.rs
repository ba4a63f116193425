//! Escaping of text for a double-quoted C string literal.

use vstd::prelude::*;
use vstd::string::*;
use vstd::std_specs::iter::IteratorSpec;

verus! {

/// The text that stands for `s` between the quotes of a string literal.
///
/// A carriage return directly followed by a line feed becomes `\r\n`;
/// any other line feed becomes `\n`, a tab `\t` and a double quote `\"`.
/// The pair is looked for first, so its line feed is never escaped on
/// its own. Every other character, a lone carriage return and a
/// backslash among them, stands for itself.
pub open spec fn escaped(s: Seq<char>) -> Seq<char>
    decreases s.len(),
{
    if s.len() == 0 {
        Seq::empty()
    } else if s.len() >= 2 && s[0] == '\r' && s[1] == '\n' {
        seq!['\\', 'r', '\\', 'n'] + escaped(s.skip(2))
    } else if s[0] == '\n' {
        seq!['\\', 'n'] + escaped(s.skip(1))
    } else if s[0] == '\t' {
        seq!['\\', 't'] + escaped(s.skip(1))
    } else if s[0] == '"' {
        seq!['\\', '"'] + escaped(s.skip(1))
    } else {
        seq![s[0]] + escaped(s.skip(1))
    }
}

/// `s` with each `from` replaced by `to`.
pub open spec fn replaced(s: Seq<char>, from: char, to: Seq<char>) -> Seq<char>
    decreases s.len(),
{
    if s.len() == 0 {
        Seq::empty()
    } else if s[0] == from {
        to + replaced(s.skip(1), from, to)
    } else {
        seq![s[0]] + replaced(s.skip(1), from, to)
    }
}

/// `s` with each carriage return that a line feed directly follows
/// replaced, together with that line feed, by `\r\n`.
pub open spec fn pairs_replaced(s: Seq<char>) -> Seq<char>
    decreases s.len(),
{
    if s.len() == 0 {
        Seq::empty()
    } else if s.len() >= 2 && s[0] == '\r' && s[1] == '\n' {
        seq!['\\', 'r', '\\', 'n'] + pairs_replaced(s.skip(2))
    } else {
        seq![s[0]] + pairs_replaced(s.skip(1))
    }
}

/// `s` with each line feed replaced by `\n`, then each tab by `\t`, then
/// each double quote by `\"`.
pub open spec fn singles_replaced(s: Seq<char>) -> Seq<char> {
    replaced(
        replaced(replaced(s, '\n', seq!['\\', 'n']), '\t', seq!['\\', 't']),
        '"',
        seq!['\\', '"'],
    )
}

/// Replacing goes through a text from left to right, part by part.
proof fn lemma_replaced_concat(a: Seq<char>, b: Seq<char>, from: char, to: Seq<char>)
    ensures
        replaced(a + b, from, to) == replaced(a, from, to) + replaced(b, from, to),
    decreases a.len(),
{
    if a.len() == 0 {
        assert(a + b =~= b);
        assert(replaced(a, from, to) + replaced(b, from, to) =~= replaced(b, from, to));
    } else {
        lemma_replaced_concat(a.skip(1), b, from, to);
        assert((a + b).skip(1) =~= a.skip(1) + b);
        assert(replaced(a + b, from, to) =~= replaced(a, from, to) + replaced(b, from, to));
    }
}

/// A text without `from` stays as it is.
proof fn lemma_replaced_absent(s: Seq<char>, from: char, to: Seq<char>)
    requires
        forall|i: int| 0 <= i < s.len() ==> s[i] != from,
    ensures
        replaced(s, from, to) == s,
    decreases s.len(),
{
    if s.len() > 0 {
        lemma_replaced_absent(s.skip(1), from, to);
        assert(seq![s[0]] + s.skip(1) =~= s);
    } else {
        assert(s =~= Seq::empty());
    }
}

/// The three single replacements on a text of two parts.
proof fn lemma_singles_concat(a: Seq<char>, b: Seq<char>)
    ensures
        singles_replaced(a + b) == singles_replaced(a) + singles_replaced(b),
{
    let (n, t, q) = (seq!['\\', 'n'], seq!['\\', 't'], seq!['\\', '"']);
    lemma_replaced_concat(a, b, '\n', n);
    lemma_replaced_concat(replaced(a, '\n', n), replaced(b, '\n', n), '\t', t);
    lemma_replaced_concat(
        replaced(replaced(a, '\n', n), '\t', t),
        replaced(replaced(b, '\n', n), '\t', t),
        '"',
        q,
    );
}

/// The three single replacements on one character, and on the text that
/// stands for a pair.
proof fn lemma_singles_short(c: char)
    ensures
        singles_replaced(seq![c]) == if c == '\n' {
            seq!['\\', 'n']
        } else if c == '\t' {
            seq!['\\', 't']
        } else if c == '"' {
            seq!['\\', '"']
        } else {
            seq![c]
        },
        singles_replaced(seq!['\\', 'r', '\\', 'n']) == seq!['\\', 'r', '\\', 'n'],
{
    let (n, t, q) = (seq!['\\', 'n'], seq!['\\', 't'], seq!['\\', '"']);
    let one = seq![c];
    let pair = seq!['\\', 'r', '\\', 'n'];
    lemma_replaced_absent(pair, '\n', n);
    lemma_replaced_absent(pair, '\t', t);
    lemma_replaced_absent(pair, '"', q);
    assert(one.skip(1) =~= Seq::<char>::empty());
    assert(replaced(one.skip(1), '\n', n) =~= Seq::<char>::empty());
    assert(replaced(one.skip(1), '\t', t) =~= Seq::<char>::empty());
    assert(replaced(one.skip(1), '"', q) =~= Seq::<char>::empty());
    if c == '\n' {
        assert(replaced(one, '\n', n) =~= n);
        lemma_replaced_absent(n, '\t', t);
        lemma_replaced_absent(n, '"', q);
    } else if c == '\t' {
        assert(replaced(one, '\n', n) =~= one);
        assert(replaced(one, '\t', t) =~= t);
        lemma_replaced_absent(t, '"', q);
    } else if c == '"' {
        assert(replaced(one, '\n', n) =~= one);
        assert(replaced(one, '\t', t) =~= one);
        assert(replaced(one, '"', q) =~= q);
    } else {
        lemma_replaced_absent(one, '\n', n);
        lemma_replaced_absent(one, '\t', t);
        lemma_replaced_absent(one, '"', q);
    }
}

/// The fixed order of escaping: the escaped form of `s` is what four
/// replacements over the whole text give, made one after the other.
/// First the pairs of a carriage return and a line feed, then the line
/// feeds that are left, then the tabs, then the double quotes.
pub proof fn lemma_escaped_in_fixed_order(s: Seq<char>)
    ensures
        escaped(s) == singles_replaced(pairs_replaced(s)),
    decreases s.len(),
{
    if s.len() == 0 {
        assert(pairs_replaced(s) =~= Seq::<char>::empty());
        assert(replaced(Seq::<char>::empty(), '\n', seq!['\\', 'n']) =~= Seq::<char>::empty());
        assert(replaced(Seq::<char>::empty(), '\t', seq!['\\', 't']) =~= Seq::<char>::empty());
        assert(replaced(Seq::<char>::empty(), '"', seq!['\\', '"']) =~= Seq::<char>::empty());
    } else if s.len() >= 2 && s[0] == '\r' && s[1] == '\n' {
        let pair = seq!['\\', 'r', '\\', 'n'];
        lemma_escaped_in_fixed_order(s.skip(2));
        lemma_singles_concat(pair, pairs_replaced(s.skip(2)));
        lemma_singles_short('\r');
    } else {
        lemma_escaped_in_fixed_order(s.skip(1));
        lemma_singles_concat(seq![s[0]], pairs_replaced(s.skip(1)));
        lemma_singles_short(s[0]);
    }
}

/// The text that `e` stands for: the four substitutions of [`escaped`]
/// undone. `\r\n` becomes a carriage return and a line feed, `\n` a line
/// feed, `\t` a tab and `\"` a double quote; the rest stands for itself.
pub open spec fn unescaped(e: Seq<char>) -> Seq<char>
    decreases e.len(),
{
    if e.len() == 0 {
        Seq::empty()
    } else if e.len() >= 4 && e[0] == '\\' && e[1] == 'r' && e[2] == '\\' && e[3] == 'n' {
        seq!['\r', '\n'] + unescaped(e.skip(4))
    } else if e.len() >= 2 && e[0] == '\\' && e[1] == 'n' {
        seq!['\n'] + unescaped(e.skip(2))
    } else if e.len() >= 2 && e[0] == '\\' && e[1] == 't' {
        seq!['\t'] + unescaped(e.skip(2))
    } else if e.len() >= 2 && e[0] == '\\' && e[1] == '"' {
        seq!['"'] + unescaped(e.skip(2))
    } else {
        seq![e[0]] + unescaped(e.skip(1))
    }
}

/// No backslash of `s` begins what would be read as an escape that was
/// never made: none is directly followed by `n` or `t`, and none by `r`
/// and a line feed.
///
/// A backslash is copied as it is, so in the escaped text such a
/// backslash cannot be told from one that escaping put there.
pub open spec fn free_of_lookalikes(s: Seq<char>) -> bool {
    forall|i: int|
        0 <= i < s.len() && #[trigger] s[i] == '\\' ==> {
            &&& !(i + 1 < s.len() && (s[i + 1] == 'n' || s[i + 1] == 't'))
            &&& !(i + 2 < s.len() && s[i + 1] == 'r' && s[i + 2] == '\n')
        }
}

/// The first character of an escaped text is the first character of the
/// text itself, or a backslash where that character is escaped.
proof fn lemma_escaped_head(s: Seq<char>)
    requires
        s.len() > 0,
    ensures
        escaped(s).len() > 0,
        (s[0] == '\n' || s[0] == '\t' || s[0] == '"' || (s.len() >= 2 && s[0] == '\r' && s[1]
            == '\n')) ==> escaped(s).len() >= 2 && escaped(s)[0] == '\\' && (escaped(s)[1] == 'n'
            <==> s[0] == '\n') && (escaped(s)[1] == 'r' <==> s[0] == '\r'),
        !(s[0] == '\n' || s[0] == '\t' || s[0] == '"' || (s.len() >= 2 && s[0] == '\r' && s[1]
            == '\n')) ==> escaped(s) == seq![s[0]] + escaped(s.skip(1)),
{
}

/// Dropping the first `k` characters shifts every later one down by `k`.
proof fn lemma_lookalikes_of_tail(s: Seq<char>, k: int)
    requires
        0 < k <= s.len(),
        forall|j: int| 0 <= j < k ==> s[j] != '\\',
    ensures
        free_of_lookalikes(s) == free_of_lookalikes(s.skip(k)),
{
    let t = s.skip(k);
    if free_of_lookalikes(s) {
        assert forall|i: int| 0 <= i < t.len() && #[trigger] t[i] == '\\' implies {
            &&& !(i + 1 < t.len() && (t[i + 1] == 'n' || t[i + 1] == 't'))
            &&& !(i + 2 < t.len() && t[i + 1] == 'r' && t[i + 2] == '\n')
        } by {
            assert(s[i + k] == '\\');
        }
    }
    if free_of_lookalikes(t) {
        assert forall|i: int| 0 <= i < s.len() && #[trigger] s[i] == '\\' implies {
            &&& !(i + 1 < s.len() && (s[i + 1] == 'n' || s[i + 1] == 't'))
            &&& !(i + 2 < s.len() && s[i + 1] == 'r' && s[i + 2] == '\n')
        } by {
            assert(i >= k);
            assert(t[i - k] == '\\');
        }
    }
}

/// Escaping round trip: undoing the substitutions on the escaped form of
/// `s` gives `s` back exactly when `s` is free of lookalikes.
pub proof fn lemma_unescape_escaped(s: Seq<char>)
    ensures
        unescaped(escaped(s)) == s <==> free_of_lookalikes(s),
    decreases s.len(),
{
    let e = escaped(s);
    if s.len() == 0 {
        assert(unescaped(e) =~= s);
    } else if s.len() >= 2 && s[0] == '\r' && s[1] == '\n' {
        let rest = s.skip(2);
        lemma_unescape_escaped(rest);
        lemma_lookalikes_of_tail(s, 2);
        assert(e.skip(4) =~= escaped(rest));
        assert(unescaped(e) == seq!['\r', '\n'] + unescaped(escaped(rest)));
        assert(s =~= seq!['\r', '\n'] + rest);
        if unescaped(e) == s {
            assert(unescaped(escaped(rest)) =~= unescaped(e).skip(2));
        }
    } else if s[0] == '\n' || s[0] == '\t' || s[0] == '"' {
        let rest = s.skip(1);
        lemma_unescape_escaped(rest);
        lemma_lookalikes_of_tail(s, 1);
        assert(e.skip(2) =~= escaped(rest));
        assert(unescaped(e) == seq![s[0]] + unescaped(escaped(rest)));
        assert(s =~= seq![s[0]] + rest);
        if unescaped(e) == s {
            assert(unescaped(escaped(rest)) =~= unescaped(e).skip(1));
        }
    } else if s[0] != '\\' {
        let rest = s.skip(1);
        lemma_unescape_escaped(rest);
        lemma_lookalikes_of_tail(s, 1);
        assert(e.skip(1) =~= escaped(rest));
        assert(unescaped(e) == seq![s[0]] + unescaped(escaped(rest)));
        assert(s =~= seq![s[0]] + rest);
        if unescaped(e) == s {
            assert(unescaped(escaped(rest)) =~= unescaped(e).skip(1));
        }
    } else {
        lemma_unescape_backslash(s);
    }
}

/// The round trip for a text that begins with a backslash.
proof fn lemma_unescape_backslash(s: Seq<char>)
    requires
        s.len() > 0,
        s[0] == '\\',
    ensures
        unescaped(escaped(s)) == s <==> free_of_lookalikes(s),
    decreases s.len(), 0int,
{
    let e = escaped(s);
    let rest = s.skip(1);
    let er = escaped(rest);
    assert(e == seq!['\\'] + er);
    assert(e.skip(1) =~= er);
    assert(s =~= seq!['\\'] + rest);
    // What follows the backslash in the text, as far as it decides how
    // the backslash is read.
    let follows_nt = rest.len() >= 1 && (rest[0] == 'n' || rest[0] == 't');
    let follows_r_lf = rest.len() >= 2 && rest[0] == 'r' && rest[1] == '\n';
    let follows_r_bs_n = rest.len() >= 3 && rest[0] == 'r' && rest[1] == '\\' && rest[2] == 'n';
    if rest.len() >= 1 {
        lemma_escaped_head(rest);
        assert(e[1] == er[0]);
        if rest[0] == 'r' {
            let after = rest.skip(1);
            assert(er == seq!['r'] + escaped(after));
            if after.len() >= 1 {
                lemma_escaped_head(after);
                assert(after[0] == rest[1]);
                assert(e[2] == escaped(after)[0]);
                if after[0] == '\\' {
                    let last = after.skip(1);
                    assert(escaped(after) == seq!['\\'] + escaped(last));
                    if last.len() >= 1 {
                        lemma_escaped_head(last);
                        assert(last[0] == rest[2]);
                        assert(e[3] == escaped(last)[0]);
                    } else {
                        assert(escaped(last).len() == 0);
                        assert(e.len() == 3);
                    }
                } else if after[0] == '\n' {
                    assert(e[3] == escaped(after)[1]);
                } else if after.len() >= 2 && after[0] == '\r' && after[1] == '\n' {
                    assert(e[3] == escaped(after)[1]);
                }
            } else {
                assert(escaped(after).len() == 0);
                assert(e.len() == 2);
            }
        }
    } else {
        assert(er.len() == 0);
        assert(e.len() == 1);
    }
    let read_as_pair = e.len() >= 4 && e[1] == 'r' && e[2] == '\\' && e[3] == 'n';
    let read_as_one = e.len() >= 2 && (e[1] == 'n' || e[1] == 't' || e[1] == '"');
    assert(read_as_pair <==> (follows_r_lf || follows_r_bs_n));
    assert(read_as_one <==> follows_nt);
    if read_as_pair || read_as_one {
        // The backslash is read as the start of an escape.
        assert(unescaped(e)[0] != '\\');
        assert(unescaped(e) != s);
        if follows_nt || follows_r_lf {
            assert(s[0] == '\\');
            assert(s[1] == rest[0]);
            if follows_r_lf {
                assert(s[2] == rest[1]);
            }
            assert(!free_of_lookalikes(s));
        } else {
            assert(s[2] == '\\');
            assert(s[3] == rest[2]);
            assert(!free_of_lookalikes(s));
        }
    } else {
        assert(unescaped(e) == seq!['\\'] + unescaped(er));
        if rest.len() == 0 {
            assert(unescaped(er) =~= rest);
            assert(free_of_lookalikes(s));
            assert(unescaped(e) =~= s);
        } else {
            lemma_unescape_escaped(rest);
            if unescaped(e) == s {
                assert(unescaped(er) =~= unescaped(e).skip(1));
            }
            if free_of_lookalikes(s) {
                assert forall|i: int| 0 <= i < rest.len() && #[trigger] rest[i]
                    == '\\' implies {
                    &&& !(i + 1 < rest.len() && (rest[i + 1] == 'n' || rest[i + 1] == 't'))
                    &&& !(i + 2 < rest.len() && rest[i + 1] == 'r' && rest[i + 2] == '\n')
                } by {
                    assert(s[i + 1] == '\\');
                }
            }
            if free_of_lookalikes(rest) {
                assert forall|i: int| 0 <= i < s.len() && #[trigger] s[i] == '\\' implies {
                    &&& !(i + 1 < s.len() && (s[i + 1] == 'n' || s[i + 1] == 't'))
                    &&& !(i + 2 < s.len() && s[i + 1] == 'r' && s[i + 2] == '\n')
                } by {
                    if i > 0 {
                        assert(rest[i - 1] == '\\');
                    } else {
                        assert(!follows_nt && !follows_r_lf);
                    }
                }
            }
        }
    }
}

/// Appends to `out` the escaped form of `s`.
pub fn push_escaped(out: &mut String, s: &str)
    ensures
        final(out)@ == old(out)@ + escaped(s@),
{
    let mut chars = s.chars();
    // A carriage return that was read and not yet written: what it
    // becomes depends on the character after it.
    let mut held: bool = false;
    loop
        invariant_except_break
            old(out)@ + escaped(s@) == out@ + escaped(
                if held {
                    seq!['\r'] + chars.remaining()
                } else {
                    chars.remaining()
                },
            ),
        invariant
            chars.decrease() is Some,
        ensures
            out@ == old(out)@ + escaped(s@),
        decreases chars.decrease()->0,
    {
        let ghost rest = chars.remaining();
        let ghost before = out@;
        match chars.next() {
            None => {
                if held {
                    out.push('\r');
                    proof {
                        let one = seq!['\r'] + rest;
                        assert(rest.len() == 0);
                        assert(one.skip(1) =~= Seq::<char>::empty());
                        assert(escaped(one.skip(1)) =~= Seq::<char>::empty());
                        assert(escaped(one) =~= seq!['\r']);
                        assert(out@ =~= before + escaped(one));
                    }
                } else {
                    assert(out@ =~= before + escaped(rest));
                }
                break ;
            },
            Some(c) => {
                let ghost tail = rest.drop_first();
                if held && c == '\n' {
                    out.push('\\');
                    out.push('r');
                    out.push('\\');
                    out.push('n');
                    held = false;
                    proof {
                        let two = seq!['\r'] + rest;
                        assert(two.skip(2) =~= tail);
                        assert(out@ =~= before + seq!['\\', 'r', '\\', 'n']);
                        assert(before + escaped(two) =~= out@ + escaped(tail));
                    }
                } else {
                    if held {
                        out.push('\r');
                        proof {
                            let one = seq!['\r'] + rest;
                            assert(one.skip(1) =~= rest);
                            assert(before + escaped(one) =~= out@ + escaped(rest));
                        }
                    }
                    let ghost middle = out@;
                    assert(rest.skip(1) =~= tail);
                    if c == '\r' {
                        held = true;
                        assert(seq!['\r'] + tail =~= rest);
                    } else if c == '\n' {
                        held = false;
                        out.push('\\');
                        out.push('n');
                        assert(middle + escaped(rest) =~= out@ + escaped(tail));
                    } else if c == '\t' {
                        held = false;
                        out.push('\\');
                        out.push('t');
                        assert(middle + escaped(rest) =~= out@ + escaped(tail));
                    } else if c == '"' {
                        held = false;
                        out.push('\\');
                        out.push('"');
                        assert(middle + escaped(rest) =~= out@ + escaped(tail));
                    } else {
                        held = false;
                        out.push(c);
                        assert(middle + escaped(rest) =~= out@ + escaped(tail));
                    }
                }
            },
        }
    }
}

} // verus!
