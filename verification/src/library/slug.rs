//! The portable identity of a file: its path relative to the library root, in
//! canonical form.
//!
//! The same relative position gives the same slug wherever the library is
//! mounted. Canonical form: separated by `/`, no leading `/`, in Unicode
//! Normalization Form C.

use unicode_normalization::UnicodeNormalization;
use vstd::prelude::*;

use crate::path;
use crate::path::Component;
use crate::text;

verus! {

/// A text in Unicode Normalization Form C.
pub uninterp spec fn nfc(s: Seq<char>) -> Seq<char>;

/// Brings a text into Unicode Normalization Form C.
///
/// Trusted: what `UnicodeNormalization::nfc` yields depends on the text alone
/// and is in that form already. No character decomposes or composes
/// canonically into `/`, and none moves in front of the first one that does
/// not combine, so the result starts with `/` only if the text does. No character
/// vanishes, so the result is empty only if the text is.
#[verifier::external_body]
fn to_nfc(s: &str) -> (r: String)
    ensures
        r@ == nfc(s@),
        nfc(r@) == r@,
        path::is_absolute(r@) ==> path::is_absolute(s@),
        s@.len() > 0 ==> r@.len() > 0,
{
    s.nfc().collect()
}

/// The names of `parts`, if all of them are names.
pub open spec fn names(parts: Seq<path::Part>) -> Option<Seq<Seq<char>>>
    decreases parts.len(),
{
    if parts.len() == 0 {
        Some(Seq::empty())
    } else {
        match (names(parts.drop_last()), parts.last()) {
            (Some(front), path::Part::Named(name)) => Some(front.push(name)),
            _ => None,
        }
    }
}

/// The names that lead from a library root to a path below it. There are none
/// for a path outside the root, for the root itself, and for a relative
/// position that does not consist of names alone.
pub open spec fn relative_names(library_root: Seq<char>, path: Seq<char>) -> Option<Seq<Seq<char>>> {
    match path::below(library_root, path) {
        Some(rest) => if rest.len() > 0 {
            names(rest)
        } else {
            None
        },
        None => None,
    }
}

/// The canonical slug of a path below a library root.
pub open spec fn slug(library_root: Seq<char>, path: Seq<char>) -> Option<Seq<char>> {
    match relative_names(library_root, path) {
        Some(list) => Some(nfc(text::joined(list, seq!['/']))),
        None => None,
    }
}

/// Names of parts are as many as the parts, and each is the part's own.
proof fn lemma_names(parts: Seq<path::Part>)
    ensures
        names(parts) matches Some(list) ==> list.len() == parts.len() && (forall|i: int|
            0 <= i < parts.len() ==> #[trigger] parts[i] == path::Part::Named(list[i])),
        (forall|i: int| 0 <= i < parts.len() ==> #[trigger] parts[i] is Named) ==> names(
            parts,
        ) is Some,
    decreases parts.len(),
{
    if parts.len() > 0 {
        let front = parts.drop_last();
        lemma_names(front);
        if forall|i: int| 0 <= i < parts.len() ==> #[trigger] parts[i] is Named {
            assert forall|i: int| 0 <= i < front.len() implies #[trigger] front[i] is Named by {
                assert(front[i] == parts[i]);
            }
            assert(parts[parts.len() - 1] is Named);
        }
        if names(parts) is Some {
            let list = names(parts)->0;
            assert forall|i: int| 0 <= i < parts.len() implies #[trigger] parts[i]
                == path::Part::Named(list[i]) by {
                if i < front.len() {
                    assert(front[i] == parts[i]);
                }
            }
        }
    }
}

/// A text that starts with `/` has an empty first piece, so joined names that
/// are not empty do not start with one.
proof fn lemma_joined_not_absolute(list: Seq<Seq<char>>)
    requires
        list.len() > 0,
        list[0].len() > 0,
        list[0][0] != '/',
    ensures
        text::joined(list, seq!['/']).len() > 0,
        text::joined(list, seq!['/'])[0] == list[0][0],
    decreases list.len(),
{
    if list.len() > 1 {
        let front = list.drop_last();
        assert(front[0] == list[0]);
        lemma_joined_not_absolute(front);
    }
}

/// Every name among the parts of pieces is one of the pieces, and not empty.
proof fn lemma_named_piece(pieces: Seq<Seq<char>>, i: int)
    requires
        0 <= i < path::piece_parts(pieces).len(),
        path::piece_parts(pieces)[i] is Named,
    ensures
        path::piece_parts(pieces)[i]->Named_0.len() > 0,
        pieces.contains(path::piece_parts(pieces)[i]->Named_0),
    decreases pieces.len(),
{
    if pieces.len() > 0 {
        let front = pieces.drop_last();
        if i < path::piece_parts(front).len() {
            lemma_named_piece(front, i);
            let name = path::piece_parts(front)[i]->Named_0;
            let k = choose|k: int| 0 <= k < front.len() && front[k] == name;
            assert(pieces[k] == name);
        } else {
            assert(pieces[pieces.len() - 1] == pieces.last());
        }
    }
}

/// Every name among the parts of a path has characters, and none of them is
/// the separator.
pub proof fn lemma_named_part(p: Seq<char>, i: int)
    requires
        0 <= i < path::parts(p).len(),
        path::parts(p)[i] is Named,
    ensures
        path::parts(p)[i]->Named_0.len() > 0,
        !path::parts(p)[i]->Named_0.contains('/'),
{
    let pieces = text::split(p, '/');
    text::lemma_split_pieces(p, '/');
    let shift: int = if path::is_absolute(p) {
        1
    } else {
        0
    };
    assert(path::piece_parts(pieces)[i - shift] == path::parts(p)[i]);
    lemma_named_piece(pieces, i - shift);
    let name = path::parts(p)[i]->Named_0;
    let k = choose|k: int| 0 <= k < pieces.len() && pieces[k] == name;
    assert(!pieces[k].contains('/'));
}

/// The slug depends on nothing but the position below the root: mounting the
/// same library somewhere else changes no slug.
pub proof fn law_slug_survives_remount(
    root_a: Seq<char>,
    path_a: Seq<char>,
    root_b: Seq<char>,
    path_b: Seq<char>,
    rest: Seq<path::Part>,
)
    requires
        path::parts(path_a) == path::parts(root_a) + rest,
        path::parts(path_b) == path::parts(root_b) + rest,
    ensures
        slug(root_a, path_a) == slug(root_b, path_b),
{
    assert(path::below(root_a, path_a) == Some(rest)) by {
        let p = path::parts(root_a);
        let q = path::parts(path_a);
        assert(q.subrange(0, p.len() as int) =~= p);
        assert(q.skip(p.len() as int) =~= rest);
    }
    assert(path::below(root_b, path_b) == Some(rest)) by {
        let p = path::parts(root_b);
        let q = path::parts(path_b);
        assert(q.subrange(0, p.len() as int) =~= p);
        assert(q.skip(p.len() as int) =~= rest);
    }
}

/// The slug of a relative path below a root is the slug of the same relative
/// path below any other root.
pub proof fn law_slug_of_joined_path(root_a: Seq<char>, root_b: Seq<char>, relative: Seq<char>)
    requires
        !path::is_absolute(relative),
        text::split(relative, '/')[0] != seq!['.'],
    ensures
        slug(root_a, path::join(root_a, relative)) == slug(root_b, path::join(root_b, relative)),
{
    path::lemma_join_parts(root_a, relative);
    path::lemma_join_parts(root_b, relative);
    law_slug_survives_remount(
        root_a,
        path::join(root_a, relative),
        root_b,
        path::join(root_b, relative),
        path::parts(relative),
    );
}

/// Computes the canonical slug of `path` relative to `library_root`.
///
/// `None` if `path` is not below the root, or if its position there does not
/// consist of names alone.
pub fn compute_slug(library_root: &str, path: &str) -> (r: Option<String>)
    ensures
        r matches Some(s) ==> slug(library_root@, path@) == Some(s@),
        r is None ==> slug(library_root@, path@) is None,
        r matches Some(s) ==> s@.len() > 0 && !path::is_absolute(s@) && nfc(s@) == s@,
{
    let rest = match path::strip_prefix(library_root, path) {
        Some(rest) => rest,
        None => {
            return None;
        },
    };
    let ghost all = path::part_views(rest@);
    if rest.len() == 0 {
        return None;
    }
    let mut list: Vec<String> = Vec::new();
    let mut i: usize = 0;
    proof {
        assert(all.take(0) =~= Seq::<path::Part>::empty());
        assert(text::views(list@) =~= Seq::<Seq<char>>::empty());
    }
    while i < rest.len()
        invariant
            i <= rest@.len(),
            all == path::part_views(rest@),
            all.len() > 0,
            path::below(library_root@, path@) == Some(all),
            names(all.take(i as int)) == Some(text::views(list@)),
        decreases rest@.len() - i,
    {
        let ghost before = text::views(list@);
        proof {
            assert(all.take(i + 1).drop_last() =~= all.take(i as int));
            assert(all.take(i + 1).last() == rest@[i as int]@);
        }
        match &rest[i] {
            Component::Normal(name) => {
                list.push(name.clone());
                proof {
                    assert(text::views(list@) =~= before.push(name@));
                }
            },
            _ => {
                proof {
                    lemma_names(all);
                    assert(!(all[i as int] is Named));
                }
                return None;
            },
        }
        i = i + 1;
    }
    proof {
        assert(all.take(rest@.len() as int) =~= all);
        reveal_strlit("/");
        assert("/"@ =~= seq!['/']);
    }
    let whole = text::join_texts(&list, "/");
    proof {
        let n = path::parts(library_root@).len() as int;
        lemma_names(all);
        assert(all[0] == path::parts(path@)[n]);
        lemma_named_part(path@, n);
        let first = text::views(list@)[0];
        assert(all[0] == path::Part::Named(first));
        assert(first[0] != '/') by {
            assert(!first.contains('/'));
            assert(first[0] == first[0]);
        }
        lemma_joined_not_absolute(text::views(list@));
    }
    Some(to_nfc(whole.as_str()))
}

proof fn lemma_pieces_are_names(list: Seq<Seq<char>>)
    requires
        forall|i: int| 0 <= i < list.len() ==> path::is_name(#[trigger] list[i]),
    ensures
        path::piece_parts(list) == list.map_values(|n: Seq<char>| path::Part::Named(n)),
        names(list.map_values(|n: Seq<char>| path::Part::Named(n))) == Some(list),
    decreases list.len(),
{
    let all = list.map_values(|n: Seq<char>| path::Part::Named(n));
    if list.len() == 0 {
        assert(path::piece_parts(list) =~= all);
        assert(list =~= Seq::empty());
    } else {
        let front = list.drop_last();
        assert forall|i: int| 0 <= i < front.len() implies path::is_name(#[trigger] front[i]) by {
            assert(front[i] == list[i]);
        }
        lemma_pieces_are_names(front);
        assert(path::is_name(list[list.len() - 1]));
        assert(all.drop_last() =~= front.map_values(|n: Seq<char>| path::Part::Named(n)));
        assert(path::piece_parts(list) =~= all);
        assert(front.push(list.last()) =~= list);
    }
}

/// The slug of a file below the root is the normalized path from the root to it,
/// its names separated by `/`. The root itself has none, and neither has what does
/// not stand below it.
pub proof fn law_slug_is_the_path_from_the_root(root: Seq<char>, list: Seq<Seq<char>>)
    requires
        list.len() > 0,
        forall|i: int| 0 <= i < list.len() ==> path::is_name(#[trigger] list[i]),
    ensures
        slug(root, path::join(root, text::joined(list, seq!['/']))) == Some(
            nfc(text::joined(list, seq!['/'])),
        ),
        slug(root, root) is None,
        forall|p: Seq<char>|
            !path::parts(root).is_prefix_of(#[trigger] path::parts(p)) ==> slug(root, p) is None,
{
    let tail = text::joined(list, seq!['/']);
    assert forall|i: int| 0 <= i < list.len() implies !(#[trigger] list[i]).contains('/') by {
        assert(path::is_name(list[i]));
    }
    text::lemma_split_joined(list, '/');
    assert(path::is_name(list[0]));
    assert(list[0][0] != '/') by {
        if list[0][0] == '/' {
            assert(list[0].contains('/'));
        }
    }
    lemma_joined_not_absolute(list);
    path::law_below_undoes_join(root, tail);
    lemma_pieces_are_names(list);
    assert(path::parts(tail) =~= path::piece_parts(list));
    let all = path::parts(root);
    assert(all.skip(all.len() as int).len() == 0);
}

proof fn lemma_names_are_named(parts: Seq<path::Part>, k: int)
    requires
        names(parts) is Some,
        0 <= k < parts.len(),
    ensures
        parts[k] is Named,
    decreases parts.len(),
{
    let front = parts.drop_last();
    if k < front.len() {
        lemma_names_are_named(front, k);
        assert(front[k] == parts[k]);
    }
}

/// A path that climbs up again below the root has no slug.
pub proof fn law_slug_never_climbs(root: Seq<char>, p: Seq<char>, rest: Seq<path::Part>, k: int)
    requires
        path::parts(p) == path::parts(root) + rest,
        0 <= k < rest.len(),
        !(rest[k] is Named),
    ensures
        slug(root, p) is None,
{
    let all = path::parts(p);
    assert(all.skip(path::parts(root).len() as int) =~= rest);
    if slug(root, p) is Some {
        assert(path::below(root, p) == Some(rest));
        lemma_names_are_named(rest, k);
    }
}

} // verus!
