//! Paths as text: `/`-separated names, taken apart and put together the way
//! `std::path` does it on Unix.

use vstd::prelude::*;

use crate::text;

verus! {

/// One part of a path.
#[derive(Debug, Clone, PartialEq, Eq)]
pub enum Component {
    /// The leading `/` of an absolute path.
    RootDir,
    /// A leading `.`.
    CurDir,
    /// `..`.
    ParentDir,
    /// A name.
    Normal(String),
}

/// One part of a path, as the contracts speak of it.
pub enum Part {
    Root,
    Cur,
    Up,
    Named(Seq<char>),
}

impl View for Component {
    type V = Part;

    open spec fn view(&self) -> Part {
        match *self {
            Component::RootDir => Part::Root,
            Component::CurDir => Part::Cur,
            Component::ParentDir => Part::Up,
            Component::Normal(name) => Part::Named(name@),
        }
    }
}

/// The parts that a list of components stands for.
pub open spec fn part_views(list: Seq<Component>) -> Seq<Part> {
    list.map_values(|c: Component| c@)
}

/// Whether a path starts at the root.
pub open spec fn is_absolute(path: Seq<char>) -> bool {
    path.len() > 0 && path[0] == '/'
}

/// The parts that the `/`-separated pieces of a path stand for. Empty pieces
/// count for nothing, and neither does a `.` that does not come first.
pub open spec fn piece_parts(pieces: Seq<Seq<char>>) -> Seq<Part>
    decreases pieces.len(),
{
    if pieces.len() == 0 {
        Seq::empty()
    } else {
        let before = piece_parts(pieces.drop_last());
        let piece = pieces.last();
        if piece.len() == 0 {
            before
        } else if piece == seq!['.'] {
            if pieces.len() == 1 {
                before.push(Part::Cur)
            } else {
                before
            }
        } else if piece == seq!['.', '.'] {
            before.push(Part::Up)
        } else {
            before.push(Part::Named(piece))
        }
    }
}

/// The parts of a path.
pub open spec fn parts(path: Seq<char>) -> Seq<Part> {
    (if is_absolute(path) {
        seq![Part::Root]
    } else {
        Seq::empty()
    }) + piece_parts(text::split(path, '/'))
}

/// The last name of a path, if it ends in one.
pub open spec fn file_name(path: Seq<char>) -> Option<Seq<char>> {
    let all = parts(path);
    if all.len() > 0 && all.last() is Named {
        Some(all.last()->Named_0)
    } else {
        None
    }
}

/// Where the last `.` of a name stands, or -1.
pub open spec fn last_dot(name: Seq<char>) -> int
    decreases name.len(),
{
    if name.len() == 0 {
        -1
    } else if name.last() == '.' {
        name.len() - 1
    } else {
        last_dot(name.drop_last())
    }
}

/// The part of a name after its last `.`, unless that `.` is the first
/// character.
pub open spec fn name_extension(name: Seq<char>) -> Option<Seq<char>> {
    if last_dot(name) > 0 {
        Some(name.skip(last_dot(name) + 1))
    } else {
        None
    }
}

/// A name without its extension.
pub open spec fn name_stem(name: Seq<char>) -> Seq<char> {
    if last_dot(name) > 0 {
        name.take(last_dot(name))
    } else {
        name
    }
}

/// The extension of a path's last name.
pub open spec fn extension(path: Seq<char>) -> Option<Seq<char>> {
    match file_name(path) {
        Some(name) => name_extension(name),
        None => None,
    }
}

/// The last name of a path without its extension.
pub open spec fn file_stem(path: Seq<char>) -> Option<Seq<char>> {
    match file_name(path) {
        Some(name) => Some(name_stem(name)),
        None => None,
    }
}

/// `tail` below `base`. An absolute `tail` takes the place of `base`.
pub open spec fn join(base: Seq<char>, tail: Seq<char>) -> Seq<char> {
    if is_absolute(tail) {
        tail
    } else if base.len() == 0 || base.last() == '/' {
        base + tail
    } else {
        base.push('/') + tail
    }
}

/// What is left of `path` below `base`, part by part, if it is there at all.
pub open spec fn below(base: Seq<char>, path: Seq<char>) -> Option<Seq<Part>> {
    if parts(base).is_prefix_of(parts(path)) {
        Some(parts(path).skip(parts(base).len() as int))
    } else {
        None
    }
}

/// A path without the `/` and `/.` that may trail it.
pub open spec fn trim_tail(path: Seq<char>) -> Seq<char>
    decreases path.len(),
{
    if path.len() > 1 && path.last() == '/' {
        trim_tail(path.drop_last())
    } else if path.len() > 1 && path.last() == '.' && path[path.len() - 2] == '/' {
        trim_tail(path.drop_last())
    } else {
        path
    }
}

/// A path without the run of characters other than `/` at its end.
pub open spec fn drop_name(path: Seq<char>) -> Seq<char>
    decreases path.len(),
{
    if path.len() > 0 && path.last() != '/' {
        drop_name(path.drop_last())
    } else {
        path
    }
}

/// The path of the folder that a path stands in. The root and the empty path
/// stand in none.
pub open spec fn parent(path: Seq<char>) -> Option<Seq<char>> {
    let all = parts(path);
    if all.len() == 0 || all.last() is Root {
        None
    } else {
        Some(trim_tail(drop_name(trim_tail(path))))
    }
}

// ---------------------------------------------------------------------------
// Facts
// ---------------------------------------------------------------------------

/// Pieces that follow others keep their parts, unless the first of them is a
/// `.`, which counts only at the very start.
pub proof fn lemma_piece_parts_append(a: Seq<Seq<char>>, b: Seq<Seq<char>>)
    requires
        a.len() > 0,
        b.len() > 0,
        b[0] != seq!['.'],
    ensures
        piece_parts(a + b) == piece_parts(a) + piece_parts(b),
    decreases b.len(),
{
    let all = a + b;
    let b0 = b.drop_last();
    assert(all.drop_last() =~= a + b0);
    assert(all.last() == b.last());
    if b.len() == 1 {
        assert(b0 =~= Seq::<Seq<char>>::empty());
        assert(a + b0 =~= a);
        assert(piece_parts(b0) =~= Seq::<Part>::empty());
        assert(piece_parts(a) + piece_parts(b0) =~= piece_parts(a));
    } else {
        assert(b0[0] == b[0]);
        lemma_piece_parts_append(a, b0);
    }
    let piece = b.last();
    if piece.len() == 0 || piece == seq!['.'] {
    } else if piece == seq!['.', '.'] {
        assert((piece_parts(a) + piece_parts(b0)).push(Part::Up) =~= piece_parts(a) + piece_parts(
            b0,
        ).push(Part::Up));
    } else {
        assert((piece_parts(a) + piece_parts(b0)).push(Part::Named(piece)) =~= piece_parts(a)
            + piece_parts(b0).push(Part::Named(piece)));
    }
}

/// Splitting a text that goes on after a separator splits both sides.
pub proof fn lemma_split_concat(a: Seq<char>, b: Seq<char>, c: char)
    ensures
        text::split(a.push(c) + b, c) == text::split(a, c) + text::split(b, c),
    decreases b.len(),
{
    let s = a.push(c) + b;
    text::lemma_split_pieces(b, c);
    if b.len() == 0 {
        assert(s =~= a.push(c));
        assert(s.drop_last() =~= a);
        assert(text::split(a, c).push(Seq::<char>::empty()) =~= text::split(a, c) + text::split(
            b,
            c,
        ));
    } else {
        let b0 = b.drop_last();
        lemma_split_concat(a, b0, c);
        text::lemma_split_pieces(b0, c);
        assert(s.drop_last() =~= a.push(c) + b0);
        assert(s.last() == b.last());
        let left = text::split(a, c);
        let right = text::split(b0, c);
        if b.last() == c {
            assert((left + right).push(Seq::<char>::empty()) =~= left + right.push(
                Seq::<char>::empty(),
            ));
        } else {
            assert((left + right).last() == right.last());
            assert((left + right).drop_last().push(right.last().push(b.last())) =~= left
                + right.drop_last().push(right.last().push(b.last())));
        }
    }
}

/// Joining a relative path that does not start with `.` below a base puts its
/// parts after those of the base.
pub proof fn lemma_join_parts(base: Seq<char>, tail: Seq<char>)
    requires
        !is_absolute(tail),
        text::split(tail, '/')[0] != seq!['.'],
    ensures
        parts(join(base, tail)) == parts(base) + parts(tail),
{
    text::lemma_split_pieces(tail, '/');
    let right = text::split(tail, '/');
    assert(parts(tail) =~= piece_parts(right));
    if base.len() == 0 {
        assert(base + tail =~= tail);
        assert(text::split(base, '/') =~= seq![Seq::<char>::empty()]);
        reveal_with_fuel(piece_parts, 2);
        assert(seq![Seq::<char>::empty()].drop_last() =~= Seq::<Seq<char>>::empty());
        assert(parts(base) =~= Seq::<Part>::empty());
    } else {
        let stem = if base.last() == '/' {
            base.drop_last()
        } else {
            base
        };
        let whole = join(base, tail);
        assert(whole =~= stem.push('/') + tail);
        assert(whole[0] == base[0]);
        lemma_split_concat(stem, tail, '/');
        text::lemma_split_pieces(stem, '/');
        lemma_piece_parts_append(text::split(stem, '/'), right);
        let left = text::split(stem, '/');
        if base.last() == '/' {
            assert(text::split(base, '/') == left.push(Seq::<char>::empty()));
            assert(left.push(Seq::<char>::empty()).drop_last() =~= left);
            assert(piece_parts(text::split(base, '/')) == piece_parts(left));
        }
        assert(parts(whole) =~= parts(base) + parts(tail));
    }
}

/// Whether a text is a name that can stand in a folder.
pub open spec fn is_name(name: Seq<char>) -> bool {
    name.len() > 0 && !name.contains('/') && name != seq!['.'] && name != seq!['.', '.']
}

/// The last name of a path is what stands behind its last separator.
pub proof fn law_last_name_stands_behind_the_separator(dir: Seq<char>, name: Seq<char>)
    requires
        is_name(name),
    ensures
        file_name(dir.push('/') + name) == Some(name),
        file_name(name) == Some(name),
{
    let whole = dir.push('/') + name;
    lemma_split_concat(dir, name, '/');
    text::lemma_split_single(name, '/');
    let left = text::split(dir, '/');
    assert(left + seq![name] =~= left.push(name));
    assert(left.push(name).drop_last() =~= left);
    let all = piece_parts(left.push(name));
    assert(all.last() == Part::Named(name));
    assert(parts(whole).last() == all.last());
    assert(seq![name].drop_last() =~= Seq::<Seq<char>>::empty());
    let alone = piece_parts(seq![name]);
    assert(alone.last() == Part::Named(name));
    assert(name[0] != '/') by {
        if name[0] == '/' {
            assert(name.contains('/'));
        }
    }
    assert(parts(name) =~= alone);
}

proof fn lemma_last_dot_behind(stem: Seq<char>, ext: Seq<char>)
    requires
        !ext.contains('.'),
    ensures
        last_dot(stem.push('.') + ext) == stem.len(),
    decreases ext.len(),
{
    let name = stem.push('.') + ext;
    if ext.len() == 0 {
        assert(name =~= stem.push('.'));
    } else {
        let shorter = ext.drop_last();
        assert(name.drop_last() =~= stem.push('.') + shorter);
        assert(name.last() == ext[ext.len() - 1]);
        assert(!shorter.contains('.')) by {
            if shorter.contains('.') {
                let k = choose|k: int| 0 <= k < shorter.len() && shorter[k] == '.';
                assert(ext[k] == '.');
            }
        }
        lemma_last_dot_behind(stem, shorter);
    }
}

/// The extension of a file is what stands behind the last dot of its name, unless
/// the name starts with that dot; the stem is what stands before it.
pub proof fn law_extension_stands_behind_the_last_dot(
    dir: Seq<char>,
    stem: Seq<char>,
    ext: Seq<char>,
)
    requires
        is_name(stem.push('.') + ext),
        !ext.contains('.'),
    ensures
        extension(dir.push('/') + (stem.push('.') + ext)) == (if stem.len() > 0 {
            Some(ext)
        } else {
            None
        }),
        file_stem(dir.push('/') + (stem.push('.') + ext)) == Some(
            if stem.len() > 0 {
                stem
            } else {
                stem.push('.') + ext
            },
        ),
{
    let name = stem.push('.') + ext;
    law_last_name_stands_behind_the_separator(dir, name);
    lemma_last_dot_behind(stem, ext);
    assert(name.skip(stem.len() as int + 1) =~= ext);
    assert(name.take(stem.len() as int) =~= stem);
}

proof fn lemma_drop_name(dir: Seq<char>, name: Seq<char>)
    requires
        !name.contains('/'),
    ensures
        drop_name(dir.push('/') + name) == dir.push('/'),
    decreases name.len(),
{
    let whole = dir.push('/') + name;
    if name.len() == 0 {
        assert(whole =~= dir.push('/'));
    } else {
        let shorter = name.drop_last();
        assert(whole.drop_last() =~= dir.push('/') + shorter);
        assert(whole.last() == name[name.len() - 1]);
        assert(!shorter.contains('/')) by {
            if shorter.contains('/') {
                let k = choose|k: int| 0 <= k < shorter.len() && shorter[k] == '/';
                assert(name[k] == '/');
            }
        }
        lemma_drop_name(dir, shorter);
    }
}

/// A file stands in the folder whose path it goes on from.
pub proof fn law_parent_is_the_folder(dir: Seq<char>, name: Seq<char>)
    requires
        is_name(name),
        dir.len() > 0,
        dir.last() != '/',
        dir.last() != '.',
    ensures
        parent(dir.push('/') + name) == Some(dir),
{
    let whole = dir.push('/') + name;
    law_last_name_stands_behind_the_separator(dir, name);
    assert(whole.last() == name[name.len() - 1]);
    assert(whole.last() != '/');
    if name.len() == 1 && name[0] == '.' {
        assert(name =~= seq!['.']);
    }
    if whole.last() == '.' {
        assert(name.len() > 1);
        assert(whole[whole.len() - 2] == name[name.len() - 2]);
    }
    assert(trim_tail(whole) == whole);
    lemma_drop_name(dir, name);
    assert(dir.push('/').drop_last() =~= dir);
    assert(trim_tail(dir.push('/')) == trim_tail(dir));
}

/// A relative path below a base is the base, a separator if the base does not end with
/// one, and the path; an absolute one takes the place of the base, and below no base it
/// stands by itself.
pub proof fn law_join_puts_a_separator_between(base: Seq<char>, tail: Seq<char>)
    requires
        tail.len() > 0,
    ensures
        join(base, tail) == (if tail[0] == '/' || base.len() == 0 {
            tail
        } else if base.last() == '/' {
            base + tail
        } else {
            base + seq!['/'] + tail
        }),
{
    assert(base.push('/') + tail =~= base + seq!['/'] + tail);
    if base.len() == 0 {
        assert(base + tail =~= tail);
    }
}

/// What is left of a joined path below its base is what was joined.
pub proof fn law_below_undoes_join(base: Seq<char>, tail: Seq<char>)
    requires
        !is_absolute(tail),
        text::split(tail, '/')[0] != seq!['.'],
    ensures
        below(base, join(base, tail)) == Some(parts(tail)),
{
    lemma_join_parts(base, tail);
    let all = parts(base) + parts(tail);
    assert(parts(base) =~= all.subrange(0, parts(base).len() as int));
    assert(all.skip(parts(base).len() as int) =~= parts(tail));
}

// ---------------------------------------------------------------------------
// The functions
// ---------------------------------------------------------------------------

/// Whether a path starts at the root.
pub fn is_absolute_path(path: &str) -> (r: bool)
    ensures
        r == is_absolute(path@),
{
    !path.is_empty() && path.get_char(0) == '/'
}

/// The parts of a path.
pub fn components(path: &str) -> (r: Vec<Component>)
    ensures
        part_views(r@) == parts(path@),
{
    let pieces = text::split_text(path, '/');
    let mut r: Vec<Component> = Vec::new();
    if is_absolute_path(path) {
        r.push(Component::RootDir);
    }
    let ghost head = part_views(r@);
    let ghost all = text::views(pieces@);
    let mut i: usize = 0;
    proof {
        assert(head =~= if is_absolute(path@) {
            seq![Part::Root]
        } else {
            Seq::empty()
        });
        assert(all.take(0) =~= Seq::<Seq<char>>::empty());
        assert(part_views(r@) =~= head + piece_parts(all.take(0)));
    }
    while i < pieces.len()
        invariant
            i <= pieces@.len(),
            all == text::views(pieces@),
            part_views(r@) == head + piece_parts(all.take(i as int)),
        decreases pieces@.len() - i,
    {
        let ghost before = part_views(r@);
        let ghost front = piece_parts(all.take(i as int));
        let piece: &String = &pieces[i];
        proof {
            assert(all.take(i + 1).drop_last() =~= all.take(i as int));
            assert(all.take(i + 1).last() == piece@);
            reveal_strlit(".");
            reveal_strlit("..");
            assert("."@ =~= seq!['.']);
            assert(".."@ =~= seq!['.', '.']);
        }
        if piece.as_str().is_empty() {
        } else if text::same(piece.as_str(), ".") {
            if i == 0 {
                r.push(Component::CurDir);
                proof {
                    assert(part_views(r@) =~= before.push(Part::Cur));
                    assert(part_views(r@) =~= head + front.push(Part::Cur));
                }
            }
        } else if text::same(piece.as_str(), "..") {
            r.push(Component::ParentDir);
            proof {
                assert(part_views(r@) =~= before.push(Part::Up));
                assert(part_views(r@) =~= head + front.push(Part::Up));
            }
        } else {
            r.push(Component::Normal(piece.clone()));
            proof {
                assert(part_views(r@) =~= before.push(Part::Named(piece@)));
                assert(part_views(r@) =~= head + front.push(Part::Named(piece@)));
            }
        }
        i = i + 1;
    }
    proof {
        assert(all.take(pieces@.len() as int) =~= all);
    }
    r
}

/// The last name of a path, if it ends in one.
pub fn file_name_of(path: &str) -> (r: Option<String>)
    ensures
        r matches Some(name) ==> file_name(path@) == Some(name@),
        r is None ==> file_name(path@) is None,
{
    let list = components(path);
    if list.len() == 0 {
        return None;
    }
    proof {
        assert(parts(path@).last() == list@[list@.len() - 1]@);
    }
    match &list[list.len() - 1] {
        Component::Normal(name) => Some(name.clone()),
        _ => None,
    }
}

/// Where the last `.` of a name stands, if it has one.
fn last_dot_of(v: &Vec<char>) -> (r: Option<usize>)
    ensures
        r matches Some(i) ==> i < v@.len() && last_dot(v@) == i,
        r is None ==> last_dot(v@) == -1,
{
    let mut i: usize = v.len();
    proof {
        assert(v@.take(i as int) =~= v@);
    }
    while i > 0
        invariant
            i <= v@.len(),
            last_dot(v@) == last_dot(v@.take(i as int)),
        decreases i,
    {
        proof {
            assert(v@.take(i as int).drop_last() =~= v@.take(i - 1));
        }
        if v[i - 1] == '.' {
            return Some(i - 1);
        }
        i = i - 1;
    }
    None
}

/// The part of a name after its last `.`, unless that `.` comes first.
pub fn name_extension_of(name: &str) -> (r: Option<String>)
    ensures
        r matches Some(e) ==> name_extension(name@) == Some(e@),
        r is None ==> name_extension(name@) is None,
{
    let v = text::chars_of(name);
    let n: usize = v.len();
    match last_dot_of(&v) {
        Some(i) => {
            if i > 0 {
                let e = text::text_slice(&v, i + 1, n);
                proof {
                    assert(e@ =~= name@.skip(i + 1));
                }
                Some(e)
            } else {
                None
            }
        },
        None => None,
    }
}

/// A name without its extension.
pub fn name_stem_of(name: &str) -> (r: String)
    ensures
        r@ == name_stem(name@),
{
    let v = text::chars_of(name);
    match last_dot_of(&v) {
        Some(i) => {
            if i > 0 {
                let s = text::text_slice(&v, 0, i);
                proof {
                    assert(s@ =~= name@.take(i as int));
                }
                s
            } else {
                name.to_owned()
            }
        },
        None => name.to_owned(),
    }
}

/// The extension of a path's last name.
pub fn extension_of(path: &str) -> (r: Option<String>)
    ensures
        r matches Some(e) ==> extension(path@) == Some(e@),
        r is None ==> extension(path@) is None,
{
    match file_name_of(path) {
        Some(name) => name_extension_of(name.as_str()),
        None => None,
    }
}

/// The last name of a path without its extension.
pub fn file_stem_of(path: &str) -> (r: Option<String>)
    ensures
        r matches Some(s) ==> file_stem(path@) == Some(s@),
        r is None ==> file_stem(path@) is None,
{
    match file_name_of(path) {
        Some(name) => Some(name_stem_of(name.as_str())),
        None => None,
    }
}

/// `tail` below `base`.
pub fn join_path(base: &str, tail: &str) -> (r: String)
    ensures
        r@ == join(base@, tail@),
{
    if is_absolute_path(tail) {
        return tail.to_owned();
    }
    let v = text::chars_of(base);
    if v.len() == 0 || v[v.len() - 1] == '/' {
        text::cat2(base, tail)
    } else {
        let mut r = base.to_owned();
        r.push('/');
        r.append(tail);
        r
    }
}

/// A path without the `/` and `/.` that may trail it.
fn trim_tail_of(v: &Vec<char>) -> (end: usize)
    ensures
        end <= v@.len(),
        v@.take(end as int) == trim_tail(v@),
{
    let mut end: usize = v.len();
    proof {
        assert(v@.take(end as int) =~= v@);
    }
    while end > 1 && (v[end - 1] == '/' || (v[end - 1] == '.' && v[end - 2] == '/'))
        invariant
            end <= v@.len(),
            trim_tail(v@.take(end as int)) == trim_tail(v@),
        decreases end,
    {
        proof {
            assert(v@.take(end as int).drop_last() =~= v@.take(end - 1));
        }
        end = end - 1;
    }
    end
}

/// A path without the run of characters other than `/` at its end.
fn drop_name_of(v: &Vec<char>) -> (end: usize)
    ensures
        end <= v@.len(),
        v@.take(end as int) == drop_name(v@),
{
    let mut end: usize = v.len();
    proof {
        assert(v@.take(end as int) =~= v@);
    }
    while end > 0 && v[end - 1] != '/'
        invariant
            end <= v@.len(),
            drop_name(v@.take(end as int)) == drop_name(v@),
        decreases end,
    {
        proof {
            assert(v@.take(end as int).drop_last() =~= v@.take(end - 1));
        }
        end = end - 1;
    }
    end
}

/// The path of the folder that a path stands in.
pub fn parent_of(path: &str) -> (r: Option<String>)
    ensures
        r matches Some(p) ==> parent(path@) == Some(p@),
        r is None ==> parent(path@) is None,
{
    let list = components(path);
    if list.len() == 0 {
        return None;
    }
    proof {
        assert(parts(path@).last() == list@[list@.len() - 1]@);
    }
    match &list[list.len() - 1] {
        Component::RootDir => {
            return None;
        },
        _ => {},
    }
    let mut v = text::chars_of(path);
    let end: usize = trim_tail_of(&v);
    v.truncate(end);
    proof {
        assert(v@ == trim_tail(path@));
    }
    let end: usize = drop_name_of(&v);
    v.truncate(end);
    proof {
        assert(v@ == drop_name(trim_tail(path@)));
    }
    let end: usize = trim_tail_of(&v);
    v.truncate(end);
    Some(text::text_of(&v))
}

/// Whether two components are the same.
fn same_component(a: &Component, b: &Component) -> (r: bool)
    ensures
        r == (a@ == b@),
{
    match (a, b) {
        (Component::RootDir, Component::RootDir) => true,
        (Component::CurDir, Component::CurDir) => true,
        (Component::ParentDir, Component::ParentDir) => true,
        (Component::Normal(x), Component::Normal(y)) => text::same(x.as_str(), y.as_str()),
        _ => false,
    }
}

/// What is left of `path` below `base`, part by part.
pub fn strip_prefix(base: &str, path: &str) -> (r: Option<Vec<Component>>)
    ensures
        r matches Some(rest) ==> below(base@, path@) == Some(part_views(rest@)),
        r is None ==> below(base@, path@) is None,
{
    let front = components(base);
    let whole = components(path);
    let ghost p = parts(base@);
    let ghost q = parts(path@);
    if front.len() > whole.len() {
        return None;
    }
    let mut i: usize = 0;
    while i < front.len()
        invariant
            i <= front@.len() <= whole@.len(),
            p == part_views(front@),
            q == part_views(whole@),
            p == parts(base@),
            q == parts(path@),
            forall|k: int| 0 <= k < i ==> p[k] == q[k],
        decreases front@.len() - i,
    {
        if !same_component(&front[i], &whole[i]) {
            proof {
                assert(p[i as int] != q[i as int]);
                assert(q.subrange(0, p.len() as int)[i as int] == q[i as int]);
            }
            return None;
        }
        i = i + 1;
    }
    let mut rest: Vec<Component> = Vec::new();
    proof {
        assert(p =~= q.subrange(0, p.len() as int));
    }
    while i < whole.len()
        invariant
            front@.len() <= i <= whole@.len(),
            q == part_views(whole@),
            part_views(rest@) == q.subrange(front@.len() as int, i as int),
        decreases whole@.len() - i,
    {
        let ghost before = part_views(rest@);
        let c = copy_component(&whole[i]);
        rest.push(c);
        proof {
            assert(part_views(rest@) =~= before.push(c@));
            assert(part_views(rest@) =~= q.subrange(front@.len() as int, i + 1));
        }
        i = i + 1;
    }
    proof {
        assert(part_views(rest@) =~= q.skip(p.len() as int));
    }
    Some(rest)
}

/// A copy of a component.
fn copy_component(c: &Component) -> (r: Component)
    ensures
        r@ == c@,
{
    match c {
        Component::RootDir => Component::RootDir,
        Component::CurDir => Component::CurDir,
        Component::ParentDir => Component::ParentDir,
        Component::Normal(name) => Component::Normal(name.clone()),
    }
}

/// Whether two paths name the same place, part by part.
pub fn same_path(a: &str, b: &str) -> (r: bool)
    ensures
        r == (parts(a@) == parts(b@)),
{
    match strip_prefix(a, b) {
        Some(rest) => {
            proof {
                let p = parts(a@);
                let q = parts(b@);
                assert(part_views(rest@).len() == rest@.len());
                if rest@.len() == 0 {
                    assert(q.subrange(0, p.len() as int) =~= q);
                }
            }
            rest.len() == 0
        },
        None => {
            proof {
                let p = parts(a@);
                if p == parts(b@) {
                    assert(p.subrange(0, p.len() as int) =~= p);
                }
            }
            false
        },
    }
}

} // verus!
