//! The control utility's terse record format: fields separated by `:`, with
//! `\:` standing for a colon inside a field.
use vstd::prelude::*;

use crate::text::{chars_of, string_of};

verus! {

/// `r` with `p` put in front of its first element.
pub open spec fn prefix_first(p: Seq<char>, r: Seq<Seq<char>>) -> Seq<Seq<char>> {
    r.update(0, p + r[0])
}

/// The fields of one terse line. A backslash directly before a colon yields a
/// literal colon; every other colon ends a field; any other character, a lone
/// backslash included, is kept as it is.
pub open spec fn terse_fields(s: Seq<char>) -> Seq<Seq<char>>
    decreases s.len(),
{
    if s.len() == 0 {
        seq![Seq::<char>::empty()]
    } else if s[0] == '\\' && s.len() >= 2 && s[1] == ':' {
        prefix_first(seq![':'], terse_fields(s.subrange(2, s.len() as int)))
    } else if s[0] == ':' {
        seq![Seq::<char>::empty()] + terse_fields(s.subrange(1, s.len() as int))
    } else {
        prefix_first(seq![s[0]], terse_fields(s.subrange(1, s.len() as int)))
    }
}

/// The character views of a list of character vectors.
pub open spec fn char_views(v: Seq<Vec<char>>) -> Seq<Seq<char>> {
    v.map_values(|x: Vec<char>| x@)
}

/// The character views of a list of strings.
pub open spec fn string_views(v: Seq<String>) -> Seq<Seq<char>> {
    v.map_values(|x: String| x@)
}

/// A field written for a terse line: each colon preceded by a backslash.
pub open spec fn escape_field(f: Seq<char>) -> Seq<char>
    decreases f.len(),
{
    if f.len() == 0 {
        Seq::empty()
    } else {
        (if f[0] == ':' {
            seq!['\\', ':']
        } else {
            seq![f[0]]
        }) + escape_field(f.subrange(1, f.len() as int))
    }
}

/// A terse line holding the given fields, each escaped, joined by colons.
pub open spec fn join_fields(fs: Seq<Seq<char>>) -> Seq<char>
    decreases fs.len(),
{
    if fs.len() <= 1 {
        if fs.len() == 0 {
            Seq::empty()
        } else {
            escape_field(fs[0])
        }
    } else {
        escape_field(fs[0]) + seq![':'] + join_fields(fs.subrange(1, fs.len() as int))
    }
}

/// A field ends in a backslash; written before a separator it would escape it.
pub open spec fn ends_in_backslash(f: Seq<char>) -> bool {
    f.len() > 0 && f.last() == '\\'
}

pub proof fn lemma_terse_fields_nonempty(s: Seq<char>)
    ensures
        terse_fields(s).len() >= 1,
    decreases s.len(),
{
    if s.len() > 0 {
        if s[0] == '\\' && s.len() >= 2 && s[1] == ':' {
            lemma_terse_fields_nonempty(s.subrange(2, s.len() as int));
        } else {
            lemma_terse_fields_nonempty(s.subrange(1, s.len() as int));
        }
    }
}

/// An escaped field followed by more text parses as that field put in front of
/// what the text parses to, unless the field ends in a backslash and the text
/// starts with a separator.
pub proof fn lemma_escaped_field_prefix(f: Seq<char>, rest: Seq<char>)
    requires
        !(ends_in_backslash(f) && rest.len() > 0 && rest[0] == ':'),
    ensures
        terse_fields(escape_field(f) + rest) == prefix_first(f, terse_fields(rest)),
    decreases f.len(),
{
    lemma_terse_fields_nonempty(rest);
    let t = terse_fields(rest);
    if f.len() == 0 {
        assert(escape_field(f) + rest =~= rest);
        assert(Seq::<char>::empty() + t[0] =~= t[0]);
        assert(prefix_first(f, t) =~= t);
    } else {
        let f1 = f.subrange(1, f.len() as int);
        if f1.len() > 0 {
            assert(f1.last() == f.last());
        }
        lemma_escaped_field_prefix(f1, rest);
        let tail = escape_field(f1) + rest;
        lemma_terse_fields_nonempty(tail);
        let tt = terse_fields(tail);
        if f[0] == ':' {
            let s = seq!['\\', ':'] + tail;
            assert(escape_field(f) + rest =~= s);
            assert(s.subrange(2, s.len() as int) =~= tail);
            assert(seq![':'] + (f1 + t[0]) =~= f + t[0]);
            assert(prefix_first(seq![':'], tt) =~= prefix_first(f, t));
        } else {
            let s = seq![f[0]] + tail;
            assert(escape_field(f) + rest =~= s);
            assert(s.subrange(1, s.len() as int) =~= tail);
            if f[0] == '\\' && s.len() >= 2 {
                if f1.len() > 0 {
                    lemma_terse_fields_nonempty(f1.subrange(1, f1.len() as int));
                    assert(escape_field(f1)[0] == (if f1[0] == ':' {
                        '\\'
                    } else {
                        f1[0]
                    }));
                    assert(s[1] == escape_field(f1)[0]);
                } else {
                    assert(escape_field(f1) =~= Seq::<char>::empty());
                    assert(s[1] == rest[0]);
                }
            }
            assert(seq![f[0]] + (f1 + t[0]) =~= f + t[0]);
            assert(prefix_first(seq![f[0]], tt) =~= prefix_first(f, t));
        }
    }
}

/// Writing fields as a terse line and parsing that line gives the same fields
/// back, empty ones included, provided no field but the last ends in a
/// backslash (such a backslash would escape the separator after it).
pub proof fn lemma_terse_round_trip(fs: Seq<Seq<char>>)
    requires
        fs.len() >= 1,
        forall|k: int| 0 <= k < fs.len() - 1 ==> !ends_in_backslash(#[trigger] fs[k]),
    ensures
        terse_fields(join_fields(fs)) == fs,
    decreases fs.len(),
{
    if fs.len() == 1 {
        lemma_escaped_field_prefix(fs[0], Seq::empty());
        assert(escape_field(fs[0]) + Seq::<char>::empty() =~= escape_field(fs[0]));
        assert(fs[0] + Seq::<char>::empty() =~= fs[0]);
        assert(prefix_first(fs[0], seq![Seq::<char>::empty()]) =~= fs);
    } else {
        let rest_fs = fs.subrange(1, fs.len() as int);
        assert forall|k: int| 0 <= k < rest_fs.len() - 1 implies !ends_in_backslash(
            #[trigger] rest_fs[k],
        ) by {
            assert(rest_fs[k] == fs[k + 1]);
        }
        lemma_terse_round_trip(rest_fs);
        let tail = seq![':'] + join_fields(rest_fs);
        assert(join_fields(fs) =~= escape_field(fs[0]) + tail);
        assert(!ends_in_backslash(fs[0]));
        lemma_escaped_field_prefix(fs[0], tail);
        assert(tail.subrange(1, tail.len() as int) =~= join_fields(rest_fs));
        assert(terse_fields(tail) =~= seq![Seq::<char>::empty()] + rest_fs);
        assert(fs[0] + Seq::<char>::empty() =~= fs[0]);
        assert(prefix_first(fs[0], terse_fields(tail)) =~= fs);
    }
}

/// Position `i` of `s` separates two fields: a colon that no backslash
/// directly precedes.
pub open spec fn is_separator(s: Seq<char>, i: int) -> bool {
    s[i] == ':' && (i == 0 || s[i - 1] != '\\')
}

/// The number of separators in `s`.
pub open spec fn separator_count(s: Seq<char>) -> nat
    decreases s.len(),
{
    if s.len() == 0 {
        0
    } else {
        separator_count(s.drop_last()) + if is_separator(s, s.len() - 1) {
            1nat
        } else {
            0nat
        }
    }
}

proof fn lemma_count_drop_first(s: Seq<char>)
    requires
        s.len() > 0,
        !(s[0] == '\\' && s.len() >= 2 && s[1] == ':'),
    ensures
        separator_count(s) == (if s[0] == ':' {
            1nat
        } else {
            0nat
        }) + separator_count(s.subrange(1, s.len() as int)),
    decreases s.len(),
{
    let t = s.subrange(1, s.len() as int);
    if s.len() == 1 {
        assert(s.drop_last().len() == 0);
        assert(separator_count(s.drop_last()) == 0);
        assert(t.len() == 0);
        assert(separator_count(t) == 0);
    } else {
        assert(s.drop_last()[0] == s[0]);
        if s.len() >= 3 {
            assert(s.drop_last()[1] == s[1]);
        }
        lemma_count_drop_first(s.drop_last());
        assert(separator_count(t) == separator_count(t.drop_last()) + if is_separator(
            t,
            t.len() - 1,
        ) {
            1nat
        } else {
            0nat
        });
        assert(is_separator(t, t.len() - 1) == is_separator(s, s.len() - 1));
        assert(t.drop_last() =~= s.drop_last().subrange(1, s.len() - 1));
        assert(t[t.len() - 1] == s[s.len() - 1]);
        if t.len() > 1 {
            assert(t[t.len() - 2] == s[s.len() - 2]);
        }
    }
}

proof fn lemma_count_drop_escape(s: Seq<char>)
    requires
        s.len() >= 2,
        s[0] == '\\',
        s[1] == ':',
    ensures
        separator_count(s) == separator_count(s.subrange(2, s.len() as int)),
    decreases s.len(),
{
    let t = s.subrange(2, s.len() as int);
    if s.len() == 2 {
        assert(s.drop_last().drop_last().len() == 0);
        let d = s.drop_last();
        assert(d.drop_last().len() == 0);
        assert(separator_count(d.drop_last()) == 0);
        assert(d[0] == '\\');
        assert(separator_count(d) == 0);
        assert(t.len() == 0);
        assert(separator_count(t) == 0);
    } else {
        assert(s.drop_last()[0] == s[0] && s.drop_last()[1] == s[1]);
        lemma_count_drop_escape(s.drop_last());
        assert(t.drop_last() =~= s.drop_last().subrange(2, s.len() - 1));
        assert(t[t.len() - 1] == s[s.len() - 1]);
        if t.len() > 1 {
            assert(t[t.len() - 2] == s[s.len() - 2]);
        }
    }
}

/// A line has one field more than it has separators: no field is ever dropped,
/// and an empty piece between two separators (or at either end) is a field.
pub proof fn lemma_field_count(s: Seq<char>)
    ensures
        terse_fields(s).len() == separator_count(s) + 1,
    decreases s.len(),
{
    if s.len() > 0 {
        if s[0] == '\\' && s.len() >= 2 && s[1] == ':' {
            let t = s.subrange(2, s.len() as int);
            lemma_field_count(t);
            lemma_count_drop_escape(s);
        } else {
            let t = s.subrange(1, s.len() as int);
            lemma_field_count(t);
            lemma_count_drop_first(s);
        }
    }
}

/// Splits one terse line into its fields, as characters.
pub fn split_terse(line: &[char]) -> (r: Vec<Vec<char>>)
    ensures
        char_views(r@) == terse_fields(line@),
{
    let n: usize = line.len();
    let mut done: Vec<Vec<char>> = Vec::new();
    let mut cur: Vec<char> = Vec::new();
    let mut i: usize = 0;
    proof {
        lemma_terse_fields_nonempty(line@);
        let t = terse_fields(line@);
        assert(line@.subrange(0, n as int) =~= line@);
        assert(Seq::<char>::empty() + t[0] =~= t[0]);
        assert(char_views(done@) + prefix_first(cur@, t) =~= t);
    }
    while i < n
        invariant
            n == line@.len(),
            i <= n,
            terse_fields(line@) == char_views(done@) + prefix_first(
                cur@,
                terse_fields(line@.subrange(i as int, n as int)),
            ),
        decreases n - i,
    {
        let ghost rest = line@.subrange(i as int, n as int);
        let ch = line[i];
        if ch == '\\' && i + 1 < n && line[i + 1] == ':' {
            let ghost rest2 = rest.subrange(2, rest.len() as int);
            assert(rest2 =~= line@.subrange(i + 2, n as int));
            proof {
                lemma_terse_fields_nonempty(rest2);
            }
            let ghost t = terse_fields(rest2);
            assert(prefix_first(cur@, prefix_first(seq![':'], t)) =~= prefix_first(
                cur@.push(':'),
                t,
            )) by {
                assert(cur@ + (seq![':'] + t[0]) =~= cur@.push(':') + t[0]);
            }
            cur.push(':');
            i = i + 2;
        } else if ch == ':' {
            let ghost rest1 = rest.subrange(1, rest.len() as int);
            assert(rest1 =~= line@.subrange(i + 1, n as int));
            proof {
                lemma_terse_fields_nonempty(rest1);
            }
            let ghost t = terse_fields(rest1);
            let ghost old_done = done@;
            let ghost old_cur = cur@;
            assert(prefix_first(old_cur, seq![Seq::<char>::empty()] + t) =~= seq![old_cur] + t);
            assert(prefix_first(Seq::<char>::empty(), t) =~= t) by {
                assert(Seq::<char>::empty() + t[0] =~= t[0]);
            }
            done.push(cur);
            cur = Vec::new();
            assert(char_views(done@) =~= char_views(old_done).push(old_cur));
            assert(terse_fields(line@) =~= char_views(done@) + prefix_first(cur@, t));
            i = i + 1;
        } else {
            let ghost rest1 = rest.subrange(1, rest.len() as int);
            assert(rest1 =~= line@.subrange(i + 1, n as int));
            proof {
                lemma_terse_fields_nonempty(rest1);
            }
            let ghost t = terse_fields(rest1);
            assert(prefix_first(cur@, prefix_first(seq![ch], t)) =~= prefix_first(
                cur@.push(ch),
                t,
            )) by {
                assert(cur@ + (seq![ch] + t[0]) =~= cur@.push(ch) + t[0]);
            }
            cur.push(ch);
            i = i + 1;
        }
    }
    let ghost old_done = done@;
    let ghost old_cur = cur@;
    assert(line@.subrange(n as int, n as int) =~= Seq::<char>::empty());
    assert(prefix_first(old_cur, seq![Seq::<char>::empty()]) =~= seq![old_cur]) by {
        assert(old_cur + Seq::<char>::empty() =~= old_cur);
    }
    done.push(cur);
    assert(char_views(done@) =~= char_views(old_done).push(old_cur));
    assert(char_views(done@) =~= terse_fields(line@));
    done
}

/// The pieces of `s` between newline characters (at least one piece).
pub open spec fn newline_pieces(s: Seq<char>) -> Seq<Seq<char>>
    decreases s.len(),
{
    if s.len() == 0 {
        seq![Seq::<char>::empty()]
    } else if s[0] == '\n' {
        seq![Seq::<char>::empty()] + newline_pieces(s.subrange(1, s.len() as int))
    } else {
        prefix_first(seq![s[0]], newline_pieces(s.subrange(1, s.len() as int)))
    }
}

/// A line ended by `\r\n` loses its carriage return.
pub open spec fn strip_cr(l: Seq<char>) -> Seq<char> {
    if l.len() > 0 && l.last() == '\r' {
        l.drop_last()
    } else {
        l
    }
}

/// The lines of a text: split at `\n`, a `\r` right before a `\n` dropped, and
/// no empty line after a final newline.
pub open spec fn text_lines(s: Seq<char>) -> Seq<Seq<char>> {
    let p = newline_pieces(s);
    let body = p.drop_last().map_values(|l: Seq<char>| strip_cr(l));
    if p.last().len() == 0 {
        body
    } else {
        body.push(p.last())
    }
}

pub proof fn lemma_newline_pieces_nonempty(s: Seq<char>)
    ensures
        newline_pieces(s).len() >= 1,
    decreases s.len(),
{
    if s.len() > 0 {
        lemma_newline_pieces_nonempty(s.subrange(1, s.len() as int));
    }
}

fn strip_cr_exec(l: Vec<char>) -> (r: Vec<char>)
    ensures
        r@ == strip_cr(l@),
{
    let mut l = l;
    if l.len() > 0 && l[l.len() - 1] == '\r' {
        l.pop();
    }
    l
}

/// Splits a text into its lines, as characters.
pub fn split_lines(text: &[char]) -> (r: Vec<Vec<char>>)
    ensures
        char_views(r@) == text_lines(text@),
{
    let n: usize = text.len();
    let mut done: Vec<Vec<char>> = Vec::new();
    let mut cur: Vec<char> = Vec::new();
    let ghost mut raw: Seq<Seq<char>> = Seq::empty();
    let mut i: usize = 0;
    proof {
        lemma_newline_pieces_nonempty(text@);
        let t = newline_pieces(text@);
        assert(text@.subrange(0, n as int) =~= text@);
        assert(Seq::<char>::empty() + t[0] =~= t[0]);
        assert(raw + prefix_first(cur@, t) =~= t);
    }
    while i < n
        invariant
            n == text@.len(),
            i <= n,
            newline_pieces(text@) == raw + prefix_first(
                cur@,
                newline_pieces(text@.subrange(i as int, n as int)),
            ),
            char_views(done@) == raw.map_values(|l: Seq<char>| strip_cr(l)),
        decreases n - i,
    {
        let ghost rest = text@.subrange(i as int, n as int);
        let ghost rest1 = rest.subrange(1, rest.len() as int);
        assert(rest1 =~= text@.subrange(i + 1, n as int));
        proof {
            lemma_newline_pieces_nonempty(rest1);
        }
        let ghost t = newline_pieces(rest1);
        let ch = text[i];
        if ch == '\n' {
            let ghost old_done = done@;
            let ghost old_cur = cur@;
            assert(prefix_first(old_cur, seq![Seq::<char>::empty()] + t) =~= seq![old_cur] + t);
            assert(prefix_first(Seq::<char>::empty(), t) =~= t) by {
                assert(Seq::<char>::empty() + t[0] =~= t[0]);
            }
            let ghost old_raw = raw;
            let line = strip_cr_exec(cur);
            done.push(line);
            cur = Vec::new();
            proof {
                raw = raw.push(old_cur);
            }
            assert(char_views(done@) =~= char_views(old_done).push(strip_cr(old_cur)));
            assert(raw.map_values(|l: Seq<char>| strip_cr(l)) =~= old_raw.map_values(
                |l: Seq<char>| strip_cr(l),
            ).push(strip_cr(old_cur)));
            assert(newline_pieces(text@) =~= raw + prefix_first(cur@, t));
        } else {
            assert(prefix_first(cur@, prefix_first(seq![ch], t)) =~= prefix_first(
                cur@.push(ch),
                t,
            )) by {
                assert(cur@ + (seq![ch] + t[0]) =~= cur@.push(ch) + t[0]);
            }
            cur.push(ch);
        }
        i = i + 1;
    }
    assert(text@.subrange(n as int, n as int) =~= Seq::<char>::empty());
    assert(prefix_first(cur@, seq![Seq::<char>::empty()]) =~= seq![cur@]) by {
        assert(cur@ + Seq::<char>::empty() =~= cur@);
    }
    let ghost p = newline_pieces(text@);
    assert(p =~= raw.push(cur@));
    assert(p.drop_last() =~= raw);
    if cur.len() > 0 {
        let ghost old_done = done@;
        done.push(cur);
        assert(char_views(done@) =~= char_views(old_done).push(p.last()));
    }
    assert(char_views(done@) =~= text_lines(text@));
    done
}

/// Parses one line of the control utility's terse output into its fields.
/// `\:` is a colon inside a field; every other colon separates two fields, so an
/// empty field between two separators comes back as an empty string.
pub fn parse_terse_line(line: &str) -> (r: Vec<String>)
    ensures
        string_views(r@) == terse_fields(line@),
{
    let cs = chars_of(line);
    let parts = split_terse(cs.as_slice());
    let mut out: Vec<String> = Vec::new();
    let mut k: usize = 0;
    while k < parts.len()
        invariant
            k <= parts@.len(),
            char_views(parts@) == terse_fields(line@),
            out@.len() == k,
            forall|j: int| 0 <= j < k ==> #[trigger] out@[j]@ == parts@[j]@,
        decreases parts@.len() - k,
    {
        out.push(string_of(parts[k].as_slice()));
        k = k + 1;
    }
    assert(string_views(out@) =~= char_views(parts@));
    out
}

} // verus!
