//! Making tool summaries safe to show on one line.

use vstd::prelude::*;

use crate::text::{from_chars, join, to_chars};

verus! {

/// ASCII control characters.
pub open spec fn is_control(c: char) -> bool {
    (c as u32) < 0x20 || c as u32 == 0x7f
}

/// Characters that separate words: ASCII control characters and the space.
pub open spec fn is_blank(c: char) -> bool {
    is_control(c) || c == ' '
}

/// The words of `s`: its longest runs of characters that are not blank.
pub open spec fn words(s: Seq<char>) -> Seq<Seq<char>>
    decreases s.len(),
{
    if s.len() == 0 {
        Seq::empty()
    } else {
        let before = words(s.drop_last());
        let c = s.last();
        if is_blank(c) {
            before
        } else if s.len() == 1 || is_blank(s[s.len() - 2]) {
            before.push(seq![c])
        } else {
            before.update(before.len() - 1, before.last().push(c))
        }
    }
}

/// The words of `s` with one space between neighbours.
pub open spec fn collapsed(s: Seq<char>) -> Seq<char> {
    join(words(s), seq![' '])
}

/// `s` cut to `max_chars` characters, the last of which, if there is one, is then an ellipsis.
pub open spec fn shortened(s: Seq<char>, max_chars: nat) -> Seq<char> {
    if s.len() <= max_chars {
        s
    } else if max_chars == 0 {
        Seq::empty()
    } else {
        s.take(max_chars - 1).push('…')
    }
}

/// What a summary becomes: its words with single spaces, cut to a length.
pub open spec fn sanitized(s: Seq<char>, max_chars: nat) -> Seq<char> {
    shortened(collapsed(s), max_chars)
}

/// No control characters, and spaces only one at a time between other characters.
pub open spec fn is_clean(s: Seq<char>) -> bool {
    &&& forall|i: int| 0 <= i < s.len() ==> !is_control(#[trigger] s[i])
    &&& s.len() > 0 ==> s[0] != ' ' && s.last() != ' '
    &&& forall|i: int| 0 <= i < s.len() - 1 ==> !(#[trigger] s[i] == ' ' && s[i + 1] == ' ')
}

/// Extending the last word extends the joined text.
proof fn join_extends(parts: Seq<Seq<char>>, sep: Seq<char>, c: char)
    requires
        parts.len() > 0,
    ensures
        join(parts.update(parts.len() - 1, parts.last().push(c)), sep) == join(parts, sep).push(c),
{
    let longer = parts.update(parts.len() - 1, parts.last().push(c));
    if parts.len() > 1 {
        assert(longer.drop_last() =~= parts.drop_last());
        assert(join(parts.drop_last(), sep) + sep + parts.last().push(c) =~= (join(
            parts.drop_last(),
            sep,
        ) + sep + parts.last()).push(c));
    }
}

/// Adding a word adds a separator and the word.
proof fn join_grows(parts: Seq<Seq<char>>, sep: Seq<char>, word: Seq<char>)
    ensures
        join(parts.push(word), sep) == (if parts.len() == 0 {
            word
        } else {
            join(parts, sep) + sep + word
        }),
{
    assert(parts.push(word).drop_last() =~= parts);
}

/// How the collapsed text grows with one more character.
proof fn collapsed_step(s: Seq<char>)
    requires
        s.len() > 0,
    ensures
        collapsed(s) == (if is_blank(s.last()) {
            collapsed(s.drop_last())
        } else if s.len() > 1 && !is_blank(s[s.len() - 2]) {
            collapsed(s.drop_last()).push(s.last())
        } else if collapsed(s.drop_last()).len() == 0 {
            seq![s.last()]
        } else {
            collapsed(s.drop_last()).push(' ').push(s.last())
        }),
{
    let before = words(s.drop_last());
    let c = s.last();
    collapsed_facts(s.drop_last());
    if !is_blank(c) {
        if s.len() == 1 || is_blank(s[s.len() - 2]) {
            join_grows(before, seq![' '], seq![c]);
            if before.len() > 0 {
                assert(join(before, seq![' ']) + seq![' '] + seq![c] =~= join(
                    before,
                    seq![' '],
                ).push(' ').push(c));
            }
        } else {
            join_extends(before, seq![' '], c);
        }
    }
}

/// The collapsed text is clean; it is empty only without words, and it ends as the text does.
pub proof fn collapsed_facts(s: Seq<char>)
    ensures
        is_clean(collapsed(s)),
        collapsed(s).len() == 0 <==> words(s).len() == 0,
        s.len() > 0 && !is_blank(s.last()) ==> words(s).len() > 0 && collapsed(s).last()
            == s.last(),
    decreases s.len(),
{
    if s.len() > 0 {
        collapsed_facts(s.drop_last());
        let before = words(s.drop_last());
        let c = s.last();
        let old_text = collapsed(s.drop_last());
        if !is_blank(c) {
            if s.len() == 1 || is_blank(s[s.len() - 2]) {
                join_grows(before, seq![' '], seq![c]);
                if before.len() > 0 {
                    assert(old_text + seq![' '] + seq![c] =~= old_text.push(' ').push(c));
                }
            } else {
                join_extends(before, seq![' '], c);
            }
        }
    }
}

/// Clean text is left as it is.
pub proof fn clean_text_is_kept(s: Seq<char>)
    requires
        is_clean(s),
    ensures
        collapsed(s) == s,
{
    clean_prefix_is_kept(s, s.len() as int);
    assert(s.take(s.len() as int) =~= s);
}

/// A prefix of clean text loses at most one space at its end.
proof fn clean_prefix_is_kept(s: Seq<char>, n: int)
    requires
        is_clean(s),
        0 <= n <= s.len(),
    ensures
        n > 0 && s[n - 1] == ' ' ==> collapsed(s.take(n)) == s.take(n - 1),
        n == 0 || s[n - 1] != ' ' ==> collapsed(s.take(n)) == s.take(n),
    decreases n,
{
    let t = s.take(n);
    if n > 0 {
        assert(t.drop_last() =~= s.take(n - 1));
        clean_prefix_is_kept(s, n - 1);
        collapsed_step(t);
        if s[n - 1] == ' ' {
            assert(s[n - 2] != ' ');
        } else if n > 1 && s[n - 2] == ' ' {
            assert(n > 2);
            assert(s.take(n - 2).push(' ').push(s[n - 1]) =~= t);
        } else {
            assert(s.take(n - 1).push(s[n - 1]) =~= t);
        }
    } else {
        assert(collapsed(t) =~= t);
    }
}

/// Sanitized text is clean, whatever the cap.
pub proof fn sanitized_is_clean(s: Seq<char>, max_chars: nat)
    ensures
        is_clean(sanitized(s, max_chars)),
{
    collapsed_facts(s);
    let t = collapsed(s);
    let r = sanitized(s, max_chars);
    if t.len() > max_chars {
        assert forall|i: int| 0 <= i < r.len() - 1 implies !(#[trigger] r[i] == ' ' && r[i + 1]
            == ' ') by {
            assert(r[i] == t[i]);
        }
    }
}

/// Sanitized text has at most `max_chars` characters.
pub proof fn sanitized_is_short(s: Seq<char>, max_chars: nat)
    ensures
        sanitized(s, max_chars).len() <= max_chars,
{
}

/// Sanitizing what is sanitized changes nothing.
pub proof fn sanitizing_twice_is_once(s: Seq<char>, max_chars: nat)
    ensures
        sanitized(sanitized(s, max_chars), max_chars) == sanitized(s, max_chars),
{
    sanitized_is_clean(s, max_chars);
    clean_text_is_kept(sanitized(s, max_chars));
}

/// Text that is clean and short enough is left as it is.
pub proof fn clean_short_text_is_unchanged(s: Seq<char>, max_chars: nat)
    requires
        is_clean(s),
        s.len() <= max_chars,
    ensures
        sanitized(s, max_chars) == s,
{
    clean_text_is_kept(s);
}

/// Makes `s` safe for one line: control characters count as spaces, runs of spaces become one,
/// the ends are trimmed, and the result is cut to `max_chars` characters with an ellipsis.
pub fn sanitize_summary(s: &str, max_chars: usize) -> (out: String)
    ensures
        out@ == sanitized(s@, max_chars as nat),
        is_clean(out@),
        out@.len() <= max_chars,
{
    let chars = to_chars(s);
    let mut kept: Vec<char> = Vec::new();
    let mut i: usize = 0;
    let mut gap = false;
    proof {
        assert(s@.take(0) =~= Seq::<char>::empty());
        collapsed_facts(s@.take(0));
    }
    while i < chars.len()
        invariant
            chars@ == s@,
            i <= chars.len(),
            kept@ == collapsed(s@.take(i as int)),
            gap == (i > 0 && is_blank(s@[i - 1])),
        decreases chars.len() - i,
    {
        let c = chars[i];
        proof {
            let longer = s@.take(i + 1);
            assert(longer.drop_last() =~= s@.take(i as int));
            collapsed_step(longer);
            collapsed_facts(s@.take(i as int));
        }
        if (c as u32) < 0x20 || c as u32 == 0x7f || c == ' ' {
            gap = true;
        } else {
            if gap && kept.len() > 0 {
                kept.push(' ');
            }
            kept.push(c);
            gap = false;
        }
        i = i + 1;
        assert(kept@ =~= collapsed(s@.take(i as int)));
    }
    proof {
        assert(s@.take(s@.len() as int) =~= s@);
        sanitized_is_clean(s@, max_chars as nat);
    }
    if kept.len() <= max_chars {
        let out = from_chars(&kept, 0, kept.len());
        assert(out@ =~= kept@);
        out
    } else if max_chars == 0 {
        String::new()
    } else {
        let mut out = from_chars(&kept, 0, max_chars - 1);
        out.push('…');
        assert(out@ =~= sanitized(s@, max_chars as nat));
        out
    }
}

/// Blank are the space and the ASCII control characters, and nothing else.
pub proof fn blank_means_space_or_control(c: char)
    ensures
        is_blank(c) <==> c as u32 <= 0x20 || c as u32 == 0x7f,
        is_control(c) <==> is_blank(c) && c != ' ',
{
}

/// No character of `w` is blank.
pub open spec fn is_word(w: Seq<char>) -> bool {
    w.len() > 0 && forall|i: int| 0 <= i < w.len() ==> !is_blank(#[trigger] w[i])
}

/// A blank ends the words before it and begins those after it; text without a blank is one word.
pub proof fn blanks_separate_words(a: Seq<char>, blank: char, b: Seq<char>, w: Seq<char>)
    requires
        is_blank(blank),
    ensures
        words(a + seq![blank] + b) == words(a) + words(b),
        is_word(w) ==> words(w) == seq![w],
        words(Seq::empty()) == Seq::<Seq<char>>::empty(),
{
    words_of_both(a, blank, b);
    if is_word(w) {
        one_word(w);
    }
}

proof fn words_of_both(a: Seq<char>, blank: char, b: Seq<char>)
    requires
        is_blank(blank),
    ensures
        words(a + seq![blank] + b) == words(a) + words(b),
    decreases b.len(),
{
    let s = a + seq![blank] + b;
    if b.len() == 0 {
        assert(s.drop_last() =~= a);
        assert(words(a) + words(b) =~= words(a));
    } else {
        let rest = b.drop_last();
        words_of_both(a, blank, rest);
        assert(s.drop_last() =~= a + seq![blank] + rest);
        let c = b.last();
        assert(s.last() == c);
        if is_blank(c) {
        } else if b.len() == 1 {
            assert(rest =~= Seq::<char>::empty());
            assert(s[s.len() - 2] == blank);
            assert(words(s) =~= words(a) + words(b));
        } else {
            assert(s[s.len() - 2] == b[b.len() - 2]);
            if !is_blank(b[b.len() - 2]) {
                collapsed_facts(rest);
            }
            assert(words(s) =~= words(a) + words(b));
        }
    }
}

proof fn one_word(w: Seq<char>)
    requires
        is_word(w),
    ensures
        words(w) == seq![w],
    decreases w.len(),
{
    let rest = w.drop_last();
    assert(!is_blank(w[w.len() - 1]));
    if w.len() == 1 {
        assert(rest =~= Seq::<char>::empty());
        assert(words(rest) =~= Seq::<Seq<char>>::empty());
        assert(w =~= seq![w.last()]);
        assert(words(w) =~= seq![w]);
    } else {
        assert forall|i: int| 0 <= i < rest.len() implies !is_blank(#[trigger] rest[i]) by {
            assert(rest[i] == w[i]);
        }
        one_word(rest);
        assert(!is_blank(w[w.len() - 2]));
        assert(rest.push(w.last()) =~= w);
        assert(words(w) =~= seq![w]);
    }
}

/// A summary that is not too long keeps all its words, with single spaces between them; of a
/// longer one the beginning is left, and an ellipsis takes the last place.
pub proof fn summaries_keep_their_words(s: Seq<char>, max_chars: nat)
    ensures
        ({
            let all = join(words(s), seq![' ']);
            let out = sanitized(s, max_chars);
            &&& all.len() <= max_chars ==> out == all
            &&& all.len() > max_chars ==> out.len() == max_chars
            &&& all.len() > max_chars && max_chars > 0 ==> out.last() == '…' && out.drop_last()
                == all.take(max_chars - 1)
        }),
{
    let all = join(words(s), seq![' ']);
    let out = sanitized(s, max_chars);
    if all.len() > max_chars && max_chars > 0 {
        assert(out.drop_last() =~= all.take(max_chars - 1));
    }
}

/// A summary that is made safe fits on one line and in the length that it may have; one that does
/// so already is left as it is, and safe text is not changed again.
pub proof fn safe_summaries_stay(
    s: &str,
    max_chars: usize,
    out: String,
    safe: &str,
    again: String,
)
    requires
        call_ensures(sanitize_summary, (s, max_chars), out),
        safe@ == out@,
        call_ensures(sanitize_summary, (safe, max_chars), again),
    ensures
        out@.len() <= max_chars,
        forall|i: int| 0 <= i < out@.len() ==> !is_control(#[trigger] out@[i]),
        is_clean(s@) && s@.len() <= max_chars ==> out@ == s@,
        again@ == out@,
{
    sanitized_is_clean(s@, max_chars as nat);
    sanitizing_twice_is_once(s@, max_chars as nat);
    if is_clean(s@) {
        clean_text_is_kept(s@);
    }
}

} // verus!
