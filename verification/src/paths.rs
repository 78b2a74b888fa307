//! Paths that name the same file although they are written differently.

use vstd::prelude::*;

use crate::text::{join, join_texts, same_text, texts, to_chars};

verus! {

/// The longest runs of characters in `s` that hold no slash.
pub open spec fn pieces(s: Seq<char>) -> Seq<Seq<char>>
    decreases s.len(),
{
    if s.len() == 0 {
        Seq::empty()
    } else {
        let before = pieces(s.drop_last());
        let c = s.last();
        if c == '/' {
            before
        } else if s.len() == 1 || s[s.len() - 2] == '/' {
            before.push(seq![c])
        } else {
            before.update(before.len() - 1, before.last().push(c))
        }
    }
}

/// `parts` without those that are a single dot, which names the directory that it stands in. Only
/// a path that begins with a dot keeps that one.
pub open spec fn without_dots(parts: Seq<Seq<char>>, rooted: bool) -> Seq<Seq<char>>
    decreases parts.len(),
{
    if parts.len() == 0 {
        Seq::empty()
    } else if parts.last() == "."@ && (rooted || parts.len() > 1) {
        without_dots(parts.drop_last(), rooted)
    } else {
        without_dots(parts.drop_last(), rooted).push(parts.last())
    }
}

/// Whether a path starts at the root.
pub open spec fn is_rooted(path: Seq<char>) -> bool {
    path.len() > 0 && path[0] == '/'
}

/// The components of a path: what stands between its slashes, without empty ones and single dots.
pub open spec fn components(path: Seq<char>) -> Seq<Seq<char>> {
    without_dots(pieces(path), is_rooted(path))
}

/// A path written down with its components alone.
pub open spec fn plain_path(path: Seq<char>) -> Seq<char> {
    if is_rooted(path) {
        "/"@ + join(components(path), "/"@)
    } else {
        join(components(path), "/"@)
    }
}

/// After a character that is no slash there is a piece.
proof fn some_piece(s: Seq<char>)
    requires
        s.len() > 0,
        s.last() != '/',
    ensures
        pieces(s).len() > 0,
    decreases s.len(),
{
    if s.len() > 1 && s[s.len() - 2] != '/' {
        some_piece(s.drop_last());
    }
}

/// Pieces do not get fewer as a path gets longer.
proof fn pieces_grow(s: Seq<char>, n: int)
    requires
        0 <= n <= s.len(),
    ensures
        pieces(s.take(n)).len() <= pieces(s).len(),
    decreases s.len(),
{
    if n == s.len() {
        assert(s.take(n) =~= s);
    } else {
        pieces_grow(s.drop_last(), n);
        assert(s.drop_last().take(n) =~= s.take(n));
    }
}

fn path_pieces(chars: &Vec<char>) -> (parts: Vec<String>)
    ensures
        texts(parts@) == pieces(chars@),
{
    let mut parts: Vec<String> = Vec::new();
    let mut i: usize = 0;
    assert(texts(parts@) =~= pieces(chars@.take(0)));
    while i < chars.len()
        invariant
            i <= chars@.len(),
            texts(parts@) == pieces(chars@.take(i as int)),
        decreases chars@.len() - i,
    {
        let c = chars[i];
        let ghost before = texts(parts@);
        let ghost longer = chars@.take(i + 1);
        proof {
            assert(longer.drop_last() =~= chars@.take(i as int));
            assert(longer.last() == c);
        }
        if c != '/' {
            if i == 0 || chars[i - 1] == '/' {
                let mut part = String::new();
                part.push(c);
                assert(part@ =~= seq![c]);
                parts.push(part);
                assert(texts(parts@) =~= before.push(seq![c]));
            } else {
                proof {
                    some_piece(chars@.take(i as int));
                }
                let mut part = match parts.pop() {
                    Some(part) => part,
                    None => String::new(),
                };
                assert(part@ == before.last());
                part.push(c);
                parts.push(part);
                assert(texts(parts@) =~= before.update(
                    before.len() - 1,
                    before.last().push(c),
                ));
            }
        }
        i = i + 1;
    }
    assert(chars@.take(i as int) =~= chars@);
    parts
}

/// Writes a path down with its components alone, so that paths with the same components become
/// the same text.
pub fn to_plain_path(path: &str) -> (plain: String)
    ensures
        plain@ == plain_path(path@),
{
    let chars = to_chars(path);
    let rooted = chars.len() > 0 && chars[0] == '/';
    let parts = path_pieces(&chars);
    let ghost all = texts(parts@);
    let mut kept: Vec<String> = Vec::new();
    let mut i: usize = 0;
    assert(texts(kept@) =~= without_dots(all.take(0), rooted));
    while i < parts.len()
        invariant
            i <= parts@.len(),
            all == texts(parts@),
            texts(kept@) == without_dots(all.take(i as int), rooted),
        decreases parts@.len() - i,
    {
        let ghost before = texts(kept@);
        proof {
            assert(all.take(i + 1).drop_last() =~= all.take(i as int));
            assert(all.take(i + 1).last() == parts@[i as int]@);
        }
        if !(same_text(parts[i].as_str(), ".") && (rooted || i > 0)) {
            kept.push(parts[i].clone());
            assert(texts(kept@) =~= before.push(parts@[i as int]@));
        }
        i = i + 1;
    }
    assert(all.take(i as int) =~= all);
    let joined = join_texts(&kept, "/");
    if rooted {
        let mut plain = "/".to_string();
        plain.append(joined.as_str());
        plain
    } else {
        joined
    }
}

/// A slash or a dot at the end of a path makes no difference.
pub proof fn endings_do_not_count(path: Seq<char>)
    requires
        path.len() > 0,
    ensures
        plain_path(path.push('/')) == plain_path(path),
        plain_path(path.push('/').push('.')) == plain_path(path),
{
    reveal_strlit(".");
    let slashed = path.push('/');
    let dotted = slashed.push('.');
    assert(slashed.drop_last() =~= path);
    assert(dotted.drop_last() =~= slashed);
    assert(pieces(slashed) == pieces(path));
    assert(pieces(dotted) =~= pieces(path).push(seq!['.']));
    assert("."@ =~= seq!['.']);
    assert(pieces(dotted).drop_last() =~= pieces(path));
    if !is_rooted(path) {
        some_piece(path.take(1));
        pieces_grow(path, 1);
    }
}

/// A name that can stand between slashes.
pub open spec fn is_name(w: Seq<char>) -> bool {
    w.len() > 0 && !w.contains('/')
}

/// What stands before a slash and what stands after it are taken apart each by itself, and a name
/// without a slash is one piece.
pub proof fn slashes_separate(a: Seq<char>, b: Seq<char>, w: Seq<char>)
    ensures
        pieces(a + seq!['/'] + b) == pieces(a) + pieces(b),
        is_name(w) ==> pieces(w) == seq![w],
        pieces(Seq::empty()) == Seq::<Seq<char>>::empty(),
{
    pieces_of_both(a, b);
    if is_name(w) {
        one_piece(w);
    }
}

proof fn pieces_of_both(a: Seq<char>, b: Seq<char>)
    ensures
        pieces(a + seq!['/'] + b) == pieces(a) + pieces(b),
    decreases b.len(),
{
    let s = a + seq!['/'] + b;
    if b.len() == 0 {
        assert(s.drop_last() =~= a);
        assert(pieces(a) + pieces(b) =~= pieces(a));
    } else {
        let rest = b.drop_last();
        pieces_of_both(a, rest);
        assert(s.drop_last() =~= a + seq!['/'] + rest);
        let c = b.last();
        assert(s.last() == c);
        if c == '/' {
        } else if b.len() == 1 {
            assert(rest =~= Seq::<char>::empty());
            assert(s[s.len() - 2] == '/');
            assert(pieces(s) =~= pieces(a) + pieces(b));
        } else {
            assert(s[s.len() - 2] == b[b.len() - 2]);
            if b[b.len() - 2] != '/' {
                some_piece(rest);
            }
            assert(pieces(s) =~= pieces(a) + pieces(b));
        }
    }
}

proof fn one_piece(w: Seq<char>)
    requires
        is_name(w),
    ensures
        pieces(w) == seq![w],
    decreases w.len(),
{
    let rest = w.drop_last();
    assert(w.contains(w.last()));
    if w.len() == 1 {
        assert(rest =~= Seq::<char>::empty());
        assert(pieces(rest) =~= Seq::<Seq<char>>::empty());
        assert(w =~= seq![w.last()]);
        assert(pieces(w) =~= seq![w]);
    } else {
        assert forall|i: int| 0 <= i < rest.len() implies rest[i] != '/' by {
            assert(w.contains(w[i]));
        }
        one_piece(rest);
        assert(w.contains(w[w.len() - 2]));
        assert(rest.push(w.last()) =~= w);
        assert(pieces(w) =~= seq![w]);
    }
}

/// Every part of a path is taken by itself: single dots are left out, but for one at the very
/// beginning of a path that does not start at the root, and all else is kept.
pub proof fn only_dots_are_left_out(
    a: Seq<Seq<char>>,
    b: Seq<Seq<char>>,
    w: Seq<char>,
    rooted: bool,
)
    ensures
        without_dots(a + b, rooted) == without_dots(a, rooted) + without_dots(
            b,
            rooted || a.len() > 0,
        ),
        w != seq!['.'] || !rooted ==> without_dots(seq![w], rooted) == seq![w],
        without_dots(seq![seq!['.']], true) == Seq::<Seq<char>>::empty(),
    decreases b.len(),
{
    reveal_strlit(".");
    assert("."@ =~= seq!['.']);
    assert(seq![w].drop_last() =~= Seq::<Seq<char>>::empty());
    assert(seq![seq!['.']].drop_last() =~= Seq::<Seq<char>>::empty());
    assert(without_dots(Seq::empty(), rooted) =~= Seq::<Seq<char>>::empty());
    assert(without_dots(Seq::empty(), true) =~= Seq::<Seq<char>>::empty());
    assert(Seq::<Seq<char>>::empty().push(w) =~= seq![w]);
    if b.len() == 0 {
        assert(a + b =~= a);
        assert(without_dots(a, rooted) + without_dots(b, rooted || a.len() > 0) =~= without_dots(
            a,
            rooted,
        ));
    } else {
        only_dots_are_left_out(a, b.drop_last(), w, rooted);
        assert((a + b).drop_last() =~= a + b.drop_last());
        assert((a + b).last() == b.last());
        assert(without_dots(a + b, rooted) =~= without_dots(a, rooted) + without_dots(
            b,
            rooted || a.len() > 0,
        ));
    }
}

/// All of `parts` are names.
pub open spec fn all_names(parts: Seq<Seq<char>>) -> bool {
    forall|i: int| 0 <= i < parts.len() ==> is_name(#[trigger] parts[i])
}

proof fn pieces_are_names(s: Seq<char>)
    ensures
        all_names(pieces(s)),
    decreases s.len(),
{
    if s.len() > 0 {
        pieces_are_names(s.drop_last());
        let before = pieces(s.drop_last());
        let c = s.last();
        if c != '/' {
            if s.len() == 1 || s[s.len() - 2] == '/' {
                assert forall|i: int| 0 <= i < pieces(s).len() implies is_name(
                    #[trigger] pieces(s)[i],
                ) by {
                    if i < before.len() {
                        assert(pieces(s)[i] == before[i]);
                    }
                }
            } else {
                some_piece(s.drop_last());
                let last = before.last();
                assert(is_name(before[before.len() - 1]));
                assert(!last.push(c).contains('/')) by {
                    if last.push(c).contains('/') {
                        let k = choose|k: int| 0 <= k < last.push(c).len() && last.push(c)[k] == '/';
                        assert(last[k] == '/');
                        assert(last.contains('/'));
                    }
                }
                assert forall|i: int| 0 <= i < pieces(s).len() implies is_name(
                    #[trigger] pieces(s)[i],
                ) by {
                    if i < before.len() - 1 {
                        assert(pieces(s)[i] == before[i]);
                    }
                }
            }
        }
    }
}

proof fn kept_are_names(parts: Seq<Seq<char>>, rooted: bool)
    requires
        all_names(parts),
    ensures
        all_names(without_dots(parts, rooted)),
    decreases parts.len(),
{
    if parts.len() > 0 {
        let rest = parts.drop_last();
        assert forall|i: int| 0 <= i < rest.len() implies is_name(#[trigger] rest[i]) by {
            assert(rest[i] == parts[i]);
        }
        kept_are_names(rest, rooted);
        assert(is_name(parts[parts.len() - 1]));
    }
}

/// Names that are joined with slashes can be told apart again.
proof fn joined_names_come_apart(parts: Seq<Seq<char>>)
    requires
        all_names(parts),
    ensures
        pieces(join(parts, "/"@)) == parts,
        !is_rooted(join(parts, "/"@)),
    decreases parts.len(),
{
    reveal_strlit("/");
    assert("/"@ =~= seq!['/']);
    let j = join(parts, "/"@);
    if parts.len() == 0 {
        assert(pieces(j) =~= parts);
    } else {
        let last = parts[parts.len() - 1];
        assert(is_name(last));
        one_piece(last);
        if parts.len() == 1 {
            assert(parts =~= seq![last]);
            assert(last.contains(last[0]));
        } else {
            let rest = parts.drop_last();
            assert forall|i: int| 0 <= i < rest.len() implies is_name(#[trigger] rest[i]) by {
                assert(rest[i] == parts[i]);
            }
            joined_names_come_apart(rest);
            pieces_of_both(join(rest, "/"@), last);
            assert(pieces(j) =~= parts);
            assert(join(rest, "/"@).len() > 0) by {
                if join(rest, "/"@).len() == 0 {
                    assert(pieces(join(rest, "/"@)) =~= Seq::<Seq<char>>::empty());
                }
            }
            assert(j[0] == join(rest, "/"@)[0]);
        }
    }
}

/// A path written plainly keeps its components and its root, and is written plainly already.
pub proof fn plain_path_keeps_components(path: Seq<char>)
    ensures
        is_rooted(plain_path(path)) == is_rooted(path),
        pieces(plain_path(path)) == components(path),
{
    reveal_strlit("/");
    assert("/"@ =~= seq!['/']);
    pieces_are_names(path);
    kept_are_names(pieces(path), is_rooted(path));
    let j = join(components(path), "/"@);
    joined_names_come_apart(components(path));
    if is_rooted(path) {
        pieces_of_both(Seq::empty(), j);
        assert(Seq::<char>::empty() + seq!['/'] + j =~= "/"@ + j);
        assert(pieces(Seq::<char>::empty()) + pieces(j) =~= pieces(j));
    }
}

/// Two paths are the same when written plainly exactly if both or neither start at the root and
/// their components are the same, all of them.
pub proof fn same_path_means_same_components(a: Seq<char>, b: Seq<char>)
    ensures
        plain_path(a) == plain_path(b) <==> is_rooted(a) == is_rooted(b) && components(a)
            == components(b),
{
    plain_path_keeps_components(a);
    plain_path_keeps_components(b);
}

/// A directory and one below it are different paths, and so are a rooted path and one that is not.
pub proof fn deeper_paths_differ(path: Seq<char>, name: Seq<char>)
    requires
        path.len() > 0,
        is_name(name),
        name != seq!['.'],
    ensures
        components(path + seq!['/'] + name) == components(path).push(name),
        plain_path(path + seq!['/'] + name) != plain_path(path),
        !is_rooted(path) ==> plain_path(seq!['/'] + path) != plain_path(path),
{
    let below = path + seq!['/'] + name;
    slashes_separate(path, name, name);
    assert(is_rooted(below) == is_rooted(path));
    only_dots_are_left_out(pieces(path), seq![name], name, is_rooted(path));
    only_dots_are_left_out(
        pieces(path),
        seq![name],
        name,
        is_rooted(path) || pieces(path).len() > 0,
    );
    assert(components(below) =~= components(path).push(name));
    same_path_means_same_components(below, path);
    assert(components(below).len() != components(path).len());
    same_path_means_same_components(seq!['/'] + path, path);
}

/// A path starts at the root exactly if it begins with a slash.
pub proof fn rooted_paths_begin_with_slash(rest: Seq<char>, path: Seq<char>)
    ensures
        is_rooted(seq!['/'] + rest),
        path.len() > 0 && path[0] != '/' ==> !is_rooted(path),
        !is_rooted(Seq::empty()),
{
}

/// Two paths are written down alike exactly if they have the same components, all of them, and
/// both or neither start at the root.
pub proof fn same_paths_are_written_alike(a: &str, b: &str, plain_a: String, plain_b: String)
    requires
        call_ensures(to_plain_path, (a,), plain_a),
        call_ensures(to_plain_path, (b,), plain_b),
    ensures
        plain_a@ == plain_b@ <==> is_rooted(a@) == is_rooted(b@) && components(a@) == components(
            b@,
        ),
{
    same_path_means_same_components(a@, b@);
}

} // verus!
