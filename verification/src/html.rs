use vstd::prelude::*;

use crate::text::{chars_of, extend_chars, is_whitespace, is_ws, occurs_at, occurs_at_exec, string_of, trim_chars, trim_seq};

verus! {

/// The text outside `<...>` tags; each closing `>` of a tag becomes a space, and a
/// `>` outside a tag stays.
pub open spec fn strip_tags_from(s: Seq<char>, in_tag: bool) -> Seq<char>
    decreases s.len(),
{
    if s.len() == 0 {
        Seq::empty()
    } else {
        let c = s[0];
        let rest = s.drop_first();
        if c == '<' {
            strip_tags_from(rest, true)
        } else if c == '>' {
            if in_tag {
                seq![' '] + strip_tags_from(rest, false)
            } else {
                seq!['>'] + strip_tags_from(rest, false)
            }
        } else if !in_tag {
            seq![c] + strip_tags_from(rest, false)
        } else {
            strip_tags_from(rest, true)
        }
    }
}

/// `str::replace`: every occurrence of `from`, scanning left to right without
/// overlaps, replaced by `to`.
pub open spec fn replace_seq(s: Seq<char>, from: Seq<char>, to: Seq<char>) -> Seq<char>
    decreases s.len(),
{
    if from.len() == 0 || s.len() == 0 {
        s
    } else if from.len() <= s.len() && s.take(from.len() as int) == from {
        to + replace_seq(s.skip(from.len() as int), from, to)
    } else {
        seq![s[0]] + replace_seq(s.drop_first(), from, to)
    }
}

/// The words of `s` (runs of non-white-space) joined by single spaces, as
/// `split_whitespace` followed by `join(" ")` gives them.
pub open spec fn collapse_ws_from(s: Seq<char>, started: bool, gap: bool) -> Seq<char>
    decreases s.len(),
{
    if s.len() == 0 {
        Seq::empty()
    } else if is_ws(s[0]) {
        collapse_ws_from(s.drop_first(), started, true)
    } else if started && gap {
        seq![' ', s[0]] + collapse_ws_from(s.drop_first(), true, false)
    } else {
        seq![s[0]] + collapse_ws_from(s.drop_first(), true, false)
    }
}

/// The entities that `strip_html_tags` decodes, in the order it replaces them.
pub open spec fn entity_pairs() -> Seq<(Seq<char>, Seq<char>)> {
    seq![
        ("&nbsp;"@, " "@),
        ("&amp;"@, "&"@),
        ("&quot;"@, "\""@),
        ("&apos;"@, "'"@),
        ("&#39;"@, "'"@),
        ("&#8217;"@, "'"@),
        ("&#8216;"@, "'"@),
        ("&#8220;"@, "\""@),
        ("&#8221;"@, "\""@),
        ("&#8230;"@, "\u{2026}"@),
        ("&lt;"@, "<"@),
        ("&gt;"@, ">"@),
    ]
}

/// The replacements of `pairs[0..k]` applied in order.
pub open spec fn replace_all(s: Seq<char>, pairs: Seq<(Seq<char>, Seq<char>)>, k: int) -> Seq<char>
    decreases k,
{
    if k <= 0 {
        s
    } else {
        replace_seq(replace_all(s, pairs, k - 1), pairs[k - 1].0, pairs[k - 1].1)
    }
}

/// `strip_html_tags`: tags removed, the common entities decoded, white space
/// collapsed to single spaces and trimmed.
pub open spec fn strip_html_tags_spec(value: Seq<char>) -> Seq<char> {
    trim_seq(collapse_ws_from(replace_all(strip_tags_from(value, false), entity_pairs(), 12), false, false))
}

fn strip_tags(v: &Vec<char>) -> (r: Vec<char>)
    ensures
        r@ == strip_tags_from(v@, false),
{
    let mut out: Vec<char> = Vec::new();
    let mut in_tag = false;
    let mut i: usize = 0;
    assert(v@.skip(0) =~= v@);
    while i < v.len()
        invariant
            i <= v.len(),
            strip_tags_from(v@, false) == out@ + strip_tags_from(v@.skip(i as int), in_tag),
        decreases v.len() - i,
    {
        let c = v[i];
        let ghost rest = v@.skip(i as int);
        let ghost before = out@;
        assert(rest.drop_first() =~= v@.skip(i + 1));
        assert(rest[0] == c);
        if c == '<' {
            in_tag = true;
        } else if c == '>' {
            if in_tag {
                in_tag = false;
                out.push(' ');
                assert(before + (seq![' '] + strip_tags_from(v@.skip(i + 1), false)) =~= out@ + strip_tags_from(v@.skip(i + 1), false));
            } else {
                out.push('>');
                assert(before + (seq!['>'] + strip_tags_from(v@.skip(i + 1), false)) =~= out@ + strip_tags_from(v@.skip(i + 1), false));
            }
        } else if !in_tag {
            out.push(c);
            assert(before + (seq![c] + strip_tags_from(v@.skip(i + 1), false)) =~= out@ + strip_tags_from(v@.skip(i + 1), false));
        }
        i = i + 1;
    }
    assert(out@ + strip_tags_from(v@.skip(v.len() as int), in_tag) =~= out@);
    out
}

/// `str::replace` on character vectors.
pub fn replace_chars(s: &Vec<char>, from: &Vec<char>, to: &Vec<char>) -> (r: Vec<char>)
    ensures
        r@ == replace_seq(s@, from@, to@),
{
    if from.len() == 0 {
        let mut r: Vec<char> = Vec::new();
        extend_chars(&mut r, s);
        assert(r@ =~= s@);
        return r;
    }
    let mut out: Vec<char> = Vec::new();
    let mut i: usize = 0;
    assert(s@.skip(0) =~= s@);
    while i < s.len()
        invariant
            i <= s.len(),
            from@.len() > 0,
            replace_seq(s@, from@, to@) == out@ + replace_seq(s@.skip(i as int), from@, to@),
        decreases s.len() - i,
    {
        let ghost rest = s@.skip(i as int);
        let ghost before = out@;
        if occurs_at_exec(s, from, i) {
            proof {
                assert(rest.take(from@.len() as int) =~= s@.subrange(i as int, i + from@.len()));
                assert(rest.skip(from@.len() as int) =~= s@.skip(i + from@.len()));
            }
            extend_chars(&mut out, to);
            assert(before + (to@ + replace_seq(s@.skip(i + from@.len()), from@, to@)) =~= out@ + replace_seq(
                s@.skip(i + from@.len()),
                from@,
                to@,
            ));
            i = i + from.len();
        } else {
            proof {
                if from@.len() <= rest.len() {
                    assert(rest.take(from@.len() as int) =~= s@.subrange(i as int, i + from@.len()));
                }
                assert(rest.drop_first() =~= s@.skip(i + 1));
            }
            out.push(s[i]);
            assert(before + (seq![s@[i as int]] + replace_seq(s@.skip(i + 1), from@, to@)) =~= out@ + replace_seq(
                s@.skip(i + 1),
                from@,
                to@,
            ));
            i = i + 1;
        }
    }
    assert(out@ + replace_seq(s@.skip(s.len() as int), from@, to@) =~= out@);
    out
}

fn collapse_ws(v: &Vec<char>) -> (r: Vec<char>)
    ensures
        r@ == collapse_ws_from(v@, false, false),
{
    let mut out: Vec<char> = Vec::new();
    let mut started = false;
    let mut gap = false;
    let mut i: usize = 0;
    assert(v@.skip(0) =~= v@);
    while i < v.len()
        invariant
            i <= v.len(),
            collapse_ws_from(v@, false, false) == out@ + collapse_ws_from(v@.skip(i as int), started, gap),
        decreases v.len() - i,
    {
        let c = v[i];
        let ghost rest = v@.skip(i as int);
        let ghost before = out@;
        assert(rest.drop_first() =~= v@.skip(i + 1));
        assert(rest[0] == c);
        if is_whitespace(c) {
            gap = true;
        } else {
            if started && gap {
                out.push(' ');
                out.push(c);
                assert(before + (seq![' ', c] + collapse_ws_from(v@.skip(i + 1), true, false)) =~= out@
                    + collapse_ws_from(v@.skip(i + 1), true, false));
            } else {
                out.push(c);
                assert(before + (seq![c] + collapse_ws_from(v@.skip(i + 1), true, false)) =~= out@
                    + collapse_ws_from(v@.skip(i + 1), true, false));
            }
            started = true;
            gap = false;
        }
        i = i + 1;
    }
    assert(out@ + collapse_ws_from(v@.skip(v.len() as int), started, gap) =~= out@);
    out
}

fn apply_entity(s: Vec<char>, from: &str, to: &str, Ghost(k): Ghost<int>) -> (r: Vec<char>)
    requires
        0 <= k < 12,
        entity_pairs()[k] == (from@, to@),
    ensures
        r@ == replace_seq(s@, entity_pairs()[k].0, entity_pairs()[k].1),
{
    replace_chars(&s, &chars_of(from), &chars_of(to))
}

/// Plain text of an HTML fragment (see `strip_html_tags_spec`).
pub fn strip_html_tags(value: &str) -> (r: String)
    ensures
        r@ == strip_html_tags_spec(value@),
{
    let ghost pairs = entity_pairs();
    let s0 = strip_tags(&chars_of(value));
    let ghost base = s0@;
    assert(replace_all(base, pairs, 0) == base);
    let s1 = apply_entity(s0, "&nbsp;", " ", Ghost(0));
    let s2 = apply_entity(s1, "&amp;", "&", Ghost(1));
    let s3 = apply_entity(s2, "&quot;", "\"", Ghost(2));
    let s4 = apply_entity(s3, "&apos;", "'", Ghost(3));
    let s5 = apply_entity(s4, "&#39;", "'", Ghost(4));
    let s6 = apply_entity(s5, "&#8217;", "'", Ghost(5));
    let s7 = apply_entity(s6, "&#8216;", "'", Ghost(6));
    let s8 = apply_entity(s7, "&#8220;", "\"", Ghost(7));
    let s9 = apply_entity(s8, "&#8221;", "\"", Ghost(8));
    let s10 = apply_entity(s9, "&#8230;", "\u{2026}", Ghost(9));
    let s11 = apply_entity(s10, "&lt;", "<", Ghost(10));
    let s12 = apply_entity(s11, "&gt;", ">", Ghost(11));
    proof {
        reveal_with_fuel(replace_all, 13);
    }
    assert(s12@ == replace_all(base, pairs, 12));
    let c = collapse_ws(&s12);
    string_of(&trim_chars(&c))
}

} // verus!
