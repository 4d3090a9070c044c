//! When two paths lead to the same place. Slashes separate the names of a path.

use crate::text::chars_of;
use vstd::prelude::*;

verus! {

/// What stands between the slashes of a path.
pub open spec fn pieces(path: Seq<char>) -> Seq<Seq<char>>
    decreases path.len(),
{
    if path.len() == 0 {
        seq![Seq::empty()]
    } else {
        let before = pieces(path.drop_last());
        if path.last() == '/' {
            before.push(Seq::empty())
        } else {
            before.drop_last().push(before.last().push(path.last()))
        }
    }
}

/// Whether a piece counts as a name: it is not empty, and a dot stands for where one is,
/// which says something at the beginning alone.
pub open spec fn is_name(piece: Seq<char>, first: bool) -> bool {
    piece.len() > 0 && (first || piece != seq!['.'])
}

/// The pieces that count.
pub open spec fn names_among(all: Seq<Seq<char>>) -> Seq<Seq<char>>
    decreases all.len(),
{
    if all.len() == 0 {
        Seq::empty()
    } else {
        let before = names_among(all.drop_last());
        if is_name(all.last(), all.len() == 1) {
            before.push(all.last())
        } else {
            before
        }
    }
}

/// Whether a path begins at the root.
pub open spec fn is_rooted(path: Seq<char>) -> bool {
    path.len() > 0 && path[0] == '/'
}

/// The names of a path, from its beginning.
pub open spec fn path_names(path: Seq<char>) -> Seq<Seq<char>> {
    names_among(pieces(path))
}

/// Whether two paths have the same names and begin at the same place.
pub open spec fn same_path(a: Seq<char>, b: Seq<char>) -> bool {
    is_rooted(a) == is_rooted(b) && path_names(a) == path_names(b)
}

/// What names say.
pub open spec fn name_texts(names: Seq<Vec<char>>) -> Seq<Seq<char>> {
    names.map_values(|name: Vec<char>| name@)
}

proof fn lemma_pieces_not_empty(path: Seq<char>)
    ensures
        pieces(path).len() > 0,
    decreases path.len(),
{
    if path.len() > 0 {
        lemma_pieces_not_empty(path.drop_last());
    }
}

fn counts_as_name(piece: &Vec<char>, first: bool) -> (yes: bool)
    ensures
        yes == is_name(piece@, first),
{
    proof {
        if piece@.len() == 1 && piece@[0] == '.' {
            assert(piece@ =~= seq!['.']);
        }
    }
    piece.len() > 0 && (first || piece.len() != 1 || piece[0] != '.')
}

/// The names of a path.
fn read_names(path: &Vec<char>) -> (names: Vec<Vec<char>>)
    ensures
        name_texts(names@) == path_names(path@),
{
    let mut names: Vec<Vec<char>> = Vec::new();
    let mut piece: Vec<char> = Vec::new();
    let mut first: bool = true;
    let mut i: usize = 0;
    proof {
        assert(pieces(path@.take(0)) =~= seq![Seq::empty()]);
        assert(pieces(path@.take(0)).drop_last() =~= Seq::<Seq<char>>::empty());
        assert(name_texts(names@) =~= Seq::<Seq<char>>::empty());
    }
    while i < path.len()
        invariant
            i <= path@.len(),
            pieces(path@.take(i as int)).len() > 0,
            piece@ == pieces(path@.take(i as int)).last(),
            first == (pieces(path@.take(i as int)).len() == 1),
            name_texts(names@) == names_among(pieces(path@.take(i as int)).drop_last()),
        decreases path@.len() - i,
    {
        let ghost so_far = path@.take(i as int);
        let ghost next = path@.take(i + 1);
        let ghost before = pieces(so_far);
        let ghost read = name_texts(names@);
        let c: char = path[i];
        proof {
            assert(next.drop_last() =~= so_far);
            assert(next.last() == c);
        }
        if c == '/' {
            assert(pieces(next).drop_last() =~= before);
            let name = piece;
            if counts_as_name(&name, first) {
                names.push(name);
                assert(name_texts(names@) =~= read.push(before.last()));
            }
            piece = Vec::new();
            first = false;
            assert(piece@ =~= Seq::<char>::empty());
        } else {
            piece.push(c);
            assert(pieces(next).drop_last() =~= before.drop_last());
        }
        i = i + 1;
    }
    proof {
        assert(path@.take(i as int) =~= path@);
    }
    let ghost read = name_texts(names@);
    let ghost last = piece@;
    if counts_as_name(&piece, first) {
        names.push(piece);
        assert(name_texts(names@) =~= read.push(last));
    }
    names
}

fn is_same_name(a: &Vec<char>, b: &Vec<char>) -> (same: bool)
    ensures
        same == (a@ == b@),
{
    if a.len() != b.len() {
        return false;
    }
    let mut i: usize = 0;
    while i < a.len()
        invariant
            i <= a@.len(),
            a@.len() == b@.len(),
            a@.take(i as int) == b@.take(i as int),
        decreases a@.len() - i,
    {
        if a[i] != b[i] {
            return false;
        }
        i = i + 1;
        proof {
            assert(a@.take(i as int) =~= a@.take(i - 1).push(a@[i - 1]));
            assert(b@.take(i as int) =~= b@.take(i - 1).push(b@[i - 1]));
        }
    }
    proof {
        assert(a@.take(i as int) =~= a@);
        assert(b@.take(i as int) =~= b@);
    }
    true
}

/// Whether two paths have the same names and begin at the same place.
pub fn is_same_path(a: &str, b: &str) -> (same: bool)
    ensures
        same == same_path(a@, b@),
{
    let left = chars_of(a);
    let right = chars_of(b);
    if (left.len() > 0 && left[0] == '/') != (right.len() > 0 && right[0] == '/') {
        return false;
    }
    let left_names = read_names(&left);
    let right_names = read_names(&right);
    if left_names.len() != right_names.len() {
        assert(name_texts(left_names@).len() != name_texts(right_names@).len());
        return false;
    }
    let mut i: usize = 0;
    while i < left_names.len()
        invariant
            i <= left_names@.len(),
            left_names@.len() == right_names@.len(),
            name_texts(left_names@) == path_names(a@),
            name_texts(right_names@) == path_names(b@),
            forall|k: int|
                0 <= k < i ==> #[trigger] name_texts(left_names@)[k] == name_texts(right_names@)[k],
        decreases left_names@.len() - i,
    {
        if !is_same_name(&left_names[i], &right_names[i]) {
            assert(name_texts(left_names@)[i as int] != name_texts(right_names@)[i as int]);
            return false;
        }
        i = i + 1;
    }
    proof {
        assert(name_texts(left_names@) =~= name_texts(right_names@));
    }
    true
}

proof fn lemma_pieces_joined(a: Seq<char>, b: Seq<char>)
    ensures
        pieces(a + seq!['/'] + b) == pieces(a) + pieces(b),
    decreases b.len(),
{
    let path = a + seq!['/'] + b;
    lemma_pieces_not_empty(b);
    if b.len() == 0 {
        assert(path.drop_last() =~= a);
        assert(pieces(path) =~= pieces(a) + pieces(b));
    } else {
        let init = b.drop_last();
        lemma_pieces_joined(a, init);
        lemma_pieces_not_empty(init);
        assert(path.drop_last() =~= a + seq!['/'] + init);
        assert(path.last() == b.last());
        assert(pieces(path) =~= pieces(a) + pieces(b));
    }
}

/// The pieces that count behind others.
spec fn later_names(all: Seq<Seq<char>>) -> Seq<Seq<char>>
    decreases all.len(),
{
    if all.len() == 0 {
        Seq::empty()
    } else {
        let before = later_names(all.drop_last());
        if is_name(all.last(), false) {
            before.push(all.last())
        } else {
            before
        }
    }
}

proof fn lemma_names_joined(a: Seq<Seq<char>>, b: Seq<Seq<char>>)
    requires
        a.len() > 0,
    ensures
        names_among(a + b) == names_among(a) + later_names(b),
    decreases b.len(),
{
    if b.len() == 0 {
        assert(a + b =~= a);
        assert(names_among(a) =~= names_among(a) + later_names(b));
    } else {
        assert((a + b).drop_last() =~= a + b.drop_last());
        lemma_names_joined(a, b.drop_last());
        assert(names_among(a + b) =~= names_among(a) + later_names(b));
    }
}

/// A path goes on behind a slash with the names that follow.
proof fn lemma_path_joined(a: Seq<char>, b: Seq<char>)
    ensures
        path_names(a + seq!['/'] + b) == path_names(a) + later_names(pieces(b)),
        is_rooted(a + seq!['/'] + b) == (a.len() == 0 || is_rooted(a)),
{
    lemma_pieces_joined(a, b);
    lemma_pieces_not_empty(a);
    lemma_names_joined(pieces(a), pieces(b));
}

proof fn lemma_later_joined(a: Seq<Seq<char>>, b: Seq<Seq<char>>)
    ensures
        later_names(a + b) == later_names(a) + later_names(b),
    decreases b.len(),
{
    if b.len() == 0 {
        assert(a + b =~= a);
        assert(later_names(a) =~= later_names(a) + later_names(b));
    } else {
        assert((a + b).drop_last() =~= a + b.drop_last());
        lemma_later_joined(a, b.drop_last());
        assert(later_names(a + b) =~= later_names(a) + later_names(b));
    }
}

/// However many slashes stand next to each other, they separate once.
pub proof fn law_slashes_separate_once(a: Seq<char>, b: Seq<char>)
    ensures
        same_path(a + seq!['/', '/'] + b, a + seq!['/'] + b),
{
    let rest = seq!['/'] + b;
    assert(a + seq!['/', '/'] + b =~= a + seq!['/'] + rest);
    lemma_path_joined(a, rest);
    lemma_path_joined(a, b);
    let nothing = Seq::<char>::empty();
    assert(rest =~= nothing + seq!['/'] + b);
    lemma_pieces_joined(nothing, b);
    lemma_later_joined(pieces(nothing), pieces(b));
    reveal_with_fuel(later_names, 2);
    assert(later_names(pieces(nothing)) =~= Seq::<Seq<char>>::empty());
    assert(later_names(pieces(rest)) =~= later_names(pieces(b)));
}

/// A dot within a path leads nowhere else.
pub proof fn law_dots_lead_nowhere_else(a: Seq<char>, b: Seq<char>)
    ensures
        same_path(a + seq!['/', '.', '/'] + b, a + seq!['/'] + b),
{
    let dot = seq!['.'];
    let rest = dot + seq!['/'] + b;
    assert(a + seq!['/', '.', '/'] + b =~= a + seq!['/'] + rest);
    lemma_path_joined(a, rest);
    lemma_path_joined(a, b);
    lemma_pieces_joined(dot, b);
    lemma_later_joined(pieces(dot), pieces(b));
    assert(dot.drop_last() =~= Seq::<char>::empty());
    reveal_with_fuel(pieces, 2);
    assert(pieces(dot) =~= seq![dot]);
    reveal_with_fuel(later_names, 2);
    assert(later_names(pieces(dot)) =~= Seq::<Seq<char>>::empty());
    assert(later_names(pieces(rest)) =~= later_names(pieces(b)));
}

/// A slash at the end leads nowhere else.
pub proof fn law_slash_at_the_end_says_nothing(path: Seq<char>)
    requires
        path.len() > 0,
    ensures
        same_path(path.push('/'), path),
{
    let nothing = Seq::<char>::empty();
    assert(path.push('/') =~= path + seq!['/'] + nothing);
    lemma_path_joined(path, nothing);
    reveal_with_fuel(later_names, 2);
    assert(later_names(pieces(nothing)) =~= Seq::<Seq<char>>::empty());
    assert(path_names(path.push('/')) =~= path_names(path));
}

proof fn lemma_last_piece(path: Seq<char>, name: Seq<char>)
    requires
        !name.contains('/'),
    ensures
        pieces(path.push('/') + name) == pieces(path).push(name),
    decreases name.len(),
{
    let whole = path.push('/') + name;
    if name.len() == 0 {
        assert(whole =~= path.push('/'));
        assert(path.push('/').drop_last() =~= path);
        assert(name =~= Seq::<char>::empty());
    } else {
        let init = name.drop_last();
        assert forall|i: int| 0 <= i < init.len() implies init[i] != '/' by {
            assert(name.contains(name[i]));
        }
        assert(name.contains(name[name.len() - 1]));
        lemma_last_piece(path, init);
        assert(whole.drop_last() =~= path.push('/') + init);
        assert(whole.last() == name.last());
        assert(init.push(name.last()) =~= name);
        assert(pieces(path).push(init).drop_last() =~= pieces(path));
    }
}

/// A name leads to its own place: what follows a slash is the last name of a path, two paths
/// to different names in one place are different, and a path from the root is not the same
/// as one from elsewhere.
pub proof fn law_names_lead_to_their_own_place(path: Seq<char>, name: Seq<char>, other: Seq<char>)
    requires
        path.len() > 0,
        name.len() > 0 && !name.contains('/') && name != seq!['.'],
        other.len() > 0 && !other.contains('/') && other != seq!['.'],
    ensures
        path_names(path.push('/') + name) == path_names(path).push(name),
        same_path(path.push('/') + name, path.push('/') + other) <==> name == other,
        !same_path(path.push('/') + name, path),
        !is_rooted(path) ==> !same_path(seq!['/'] + path, path),
{
    lemma_last_piece(path, name);
    lemma_last_piece(path, other);
    lemma_pieces_not_empty(path);
    let all = pieces(path);
    assert(all.push(name).drop_last() =~= all);
    assert(all.push(other).drop_last() =~= all);
    let names = path_names(path);
    assert(path_names(path.push('/') + name) == names.push(name));
    assert(path_names(path.push('/') + other) == names.push(other));
    assert(names.push(name).last() == name);
    assert(names.push(other).last() == other);
    assert(names.push(name).len() != names.len());
    assert((path.push('/') + name)[0] == path[0]);
    assert((path.push('/') + other)[0] == path[0]);
}

} // verus!
