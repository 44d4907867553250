//! The mathematical model of path decomposition.
//!
//! A path is a sequence of characters.  Components are separated by `/`;
//! repeated separators collapse; a `.` component is skipped except when it is
//! the whole first component; a leading `/` is the root component.  The spec
//! functions here define, over that component structure, what the parent,
//! file name, file stem, extension and prefix-stripping queries return.
//!
//! The scans mirror how the platform's native path type walks a path: from
//! the back for the final component (`file_name_scan`, `parent_scan`), from
//! the front for component-wise prefix matching (`strip_body`).

use vstd::prelude::*;

verus! {

/// The path separator.
pub open spec fn is_sep(c: char) -> bool {
    c == '/'
}

/// A path beginning with a separator has a root component.
pub open spec fn has_root(s: Seq<char>) -> bool {
    s.len() > 0 && is_sep(s[0])
}

/// A relative path may begin with a whole `.` component.
pub open spec fn starts_cur_dir(s: Seq<char>) -> bool {
    &&& !has_root(s)
    &&& s.len() > 0
    &&& s[0] == '.'
    &&& (s.len() == 1 || is_sep(s[1]))
}

/// How many leading characters belong to the root or to the leading `.`
/// component; the path's body starts after them.
pub open spec fn body_start(s: Seq<char>) -> nat {
    if has_root(s) || starts_cur_dir(s) {
        1
    } else {
        0
    }
}

/// A piece of the body that the component scan skips: an empty piece, from
/// repeated or trailing separators, or a lone `.`.
pub open spec fn is_skip_piece(p: Seq<char>) -> bool {
    p.len() == 0 || (p.len() == 1 && p[0] == '.')
}

/// The piece `..`, naming the parent directory; it is never a file name.
pub open spec fn is_parent_piece(p: Seq<char>) -> bool {
    p.len() == 2 && p[0] == '.' && p[1] == '.'
}

/// The back scan for the file name.  `s` is the part of the path not yet
/// scanned, `floor` is the body start of the whole path, and `acc` holds the
/// characters already gathered of the piece under the cursor.
pub open spec fn file_name_scan(s: Seq<char>, floor: nat, acc: Seq<char>) -> Option<Seq<char>>
    decreases s.len(),
{
    if s.len() <= floor {
        if is_skip_piece(acc) || is_parent_piece(acc) {
            None
        } else {
            Some(acc)
        }
    } else if is_sep(s.last()) {
        if is_skip_piece(acc) {
            file_name_scan(s.drop_last(), floor, Seq::empty())
        } else if is_parent_piece(acc) {
            None
        } else {
            Some(acc)
        }
    } else {
        file_name_scan(s.drop_last(), floor, seq![s.last()] + acc)
    }
}

/// The file name of a path: its final component, unless that component is a
/// root, a `.` or a `..`.
pub open spec fn file_name_of(s: Seq<char>) -> Option<Seq<char>> {
    file_name_scan(s, body_start(s), Seq::empty())
}

/// Removes trailing separators and trailing `.` components, down to `floor`.
pub open spec fn trim_trailing(s: Seq<char>, floor: nat) -> Seq<char>
    decreases s.len(),
{
    if s.len() <= floor {
        s
    } else if is_sep(s.last()) {
        trim_trailing(s.drop_last(), floor)
    } else if s.last() == '.' && (s.len() - 1 == floor || is_sep(s[s.len() - 2])) {
        trim_trailing(s.drop_last(), floor)
    } else {
        s
    }
}

/// The back scan for the parent path: the part of the path before its final
/// component, with separators and `.` components trimmed off its end.
pub open spec fn parent_scan(s: Seq<char>, floor: nat, acc: Seq<char>) -> Option<Seq<char>>
    decreases s.len(),
{
    if s.len() <= floor {
        if is_skip_piece(acc) {
            if starts_cur_dir(s) {
                Some(Seq::empty())
            } else {
                None
            }
        } else {
            Some(s)
        }
    } else if is_sep(s.last()) {
        if is_skip_piece(acc) {
            parent_scan(s.drop_last(), floor, Seq::empty())
        } else {
            Some(trim_trailing(s.drop_last(), floor))
        }
    } else {
        parent_scan(s.drop_last(), floor, seq![s.last()] + acc)
    }
}

/// The parent of a path; `None` when the path is empty or consists of a root
/// component alone.
pub open spec fn parent_of(s: Seq<char>) -> Option<Seq<char>> {
    parent_scan(s, body_start(s), Seq::empty())
}

/// One past the position of the last `.` in a file name; 0 when there is
/// none.
pub open spec fn after_last_dot(n: Seq<char>) -> int
    decreases n.len(),
{
    if n.len() == 0 {
        0
    } else if n.last() == '.' {
        n.len() as int
    } else {
        after_last_dot(n.drop_last())
    }
}

/// The stem of a file name: the name up to its last `.`; a name with no `.`,
/// or with a `.` only at the front, is its own stem.
pub open spec fn stem_of_name(n: Seq<char>) -> Seq<char> {
    let k = after_last_dot(n);
    if k <= 1 {
        n
    } else {
        n.take(k - 1)
    }
}

/// The extension of a file name: what follows its last `.`, absent when the
/// name has no `.` past its first character.
pub open spec fn extension_of_name(n: Seq<char>) -> Option<Seq<char>> {
    let k = after_last_dot(n);
    if k <= 1 {
        None
    } else {
        Some(n.subrange(k, n.len() as int))
    }
}

/// The file stem of a path.
pub open spec fn file_stem_of(s: Seq<char>) -> Option<Seq<char>> {
    match file_name_of(s) {
        Some(n) => Some(stem_of_name(n)),
        None => None,
    }
}

/// The extension of a path.
pub open spec fn extension_of(s: Seq<char>) -> Option<Seq<char>> {
    match file_name_of(s) {
        Some(n) => extension_of_name(n),
        None => None,
    }
}

/// The length of the leading run of non-separator characters in a body
/// slice.
pub open spec fn front_piece_len(s: Seq<char>) -> nat
    decreases s.len(),
{
    if s.len() == 0 {
        0
    } else if is_sep(s[0]) {
        0
    } else {
        1 + front_piece_len(s.drop_first())
    }
}

/// The leading piece of a body slice.
pub open spec fn front_piece(s: Seq<char>) -> Seq<char> {
    s.take(front_piece_len(s) as int)
}

/// The body slice after its leading piece and the separator ending it.
pub open spec fn front_rest(s: Seq<char>) -> Seq<char> {
    if front_piece_len(s) < s.len() {
        s.subrange(front_piece_len(s) as int + 1, s.len() as int)
    } else {
        Seq::empty()
    }
}

/// Strips the components of the body slice `b` from the front of the body
/// slice `p`.  `Some` holds the remainder of `p`, not yet trimmed.
pub open spec fn strip_body(p: Seq<char>, b: Seq<char>) -> Option<Seq<char>>
    decreases b.len(), p.len(),
{
    if b.len() == 0 {
        Some(p)
    } else if is_skip_piece(front_piece(b)) {
        strip_body(p, front_rest(b))
    } else if p.len() == 0 {
        None
    } else if is_skip_piece(front_piece(p)) {
        strip_body(front_rest(p), b)
    } else if front_piece(p) == front_piece(b) {
        strip_body(front_rest(p), front_rest(b))
    } else {
        None
    }
}

/// A body slice with no components at all: separators and `.` pieces only.
pub open spec fn all_skip_pieces(b: Seq<char>) -> bool
    decreases b.len(),
{
    if b.len() == 0 {
        true
    } else if is_skip_piece(front_piece(b)) {
        all_skip_pieces(front_rest(b))
    } else {
        false
    }
}

/// Removes leading separators and leading `.` components from a body slice.
pub open spec fn trim_leading(s: Seq<char>) -> Seq<char>
    decreases s.len(),
{
    if s.len() == 0 {
        s
    } else if is_sep(s[0]) {
        trim_leading(s.drop_first())
    } else if s[0] == '.' && (s.len() == 1 || is_sep(s[1])) {
        trim_leading(s.drop_first())
    } else {
        s
    }
}

/// What remains of `p` when the components of `b` are stripped from its
/// front; `None` when `p` does not start with `b`, component by component.
pub open spec fn strip_prefix_of(p: Seq<char>, b: Seq<char>) -> Option<Seq<char>> {
    if has_root(b) || starts_cur_dir(b) {
        if (has_root(b) && has_root(p)) || (starts_cur_dir(b) && starts_cur_dir(p)) {
            match strip_body(p.skip(1), b.skip(1)) {
                Some(r) => Some(trim_trailing(trim_leading(r), 0)),
                None => None,
            }
        } else {
            None
        }
    } else if has_root(p) || starts_cur_dir(p) {
        // p begins with a root or `.` component and b cannot match it, so b
        // must have no components at all; nothing of p is then consumed
        if all_skip_pieces(b) {
            Some(trim_trailing(p, body_start(p)))
        } else {
            None
        }
    } else {
        match strip_body(p, b) {
            Some(r) => Some(trim_trailing(trim_leading(r), 0)),
            None => None,
        }
    }
}

/// A path whose final component is `..` — whatever precedes it — has no file
/// name, no file stem and no extension.
pub proof fn lemma_parent_dir_final_component(p: Seq<char>)
    ensures
        file_name_of(p + seq!['/', '.', '.']) is None,
        file_stem_of(p + seq!['/', '.', '.']) is None,
        extension_of(p + seq!['/', '.', '.']) is None,
        file_name_of(seq!['.', '.']) is None,
        file_stem_of(seq!['.', '.']) is None,
{
    let s = p + seq!['/', '.', '.'];
    let fl = body_start(s);
    assert(fl <= 1);
    assert(s.last() == '.');
    assert(s.drop_last() =~= p + seq!['/', '.']);
    assert(seq![s.last()] + Seq::<char>::empty() =~= seq!['.']);
    let s1 = p + seq!['/', '.'];
    assert(s1.last() == '.');
    assert(s1.drop_last() =~= p.push('/'));
    assert(seq![s1.last()] + seq!['.'] =~= seq!['.', '.']);
    let s2 = p.push('/');
    assert(is_parent_piece(seq!['.', '.']));
    if s2.len() > fl {
        assert(is_sep(s2.last()));
        assert(file_name_scan(s2, fl, seq!['.', '.']) is None);
    } else {
        assert(file_name_scan(s2, fl, seq!['.', '.']) is None);
    }
    assert(file_name_scan(s, fl, Seq::empty()) == file_name_scan(s1, fl, seq!['.']));
    assert(file_name_scan(s1, fl, seq!['.']) == file_name_scan(s2, fl, seq!['.', '.']));
    let d = seq!['.', '.'];
    assert(d.last() == '.');
    assert(d.drop_last() =~= seq!['.']);
    assert(seq![d.last()] + Seq::<char>::empty() =~= seq!['.']);
    let d1 = seq!['.'];
    assert(d1.last() == '.');
    assert(d1.drop_last() =~= Seq::<char>::empty());
    assert(seq![d1.last()] + seq!['.'] =~= seq!['.', '.']);
    assert(body_start(d) == 0);
    assert(file_name_scan(d, 0, Seq::empty()) == file_name_scan(d1, 0, seq!['.']));
    assert(file_name_scan(d1, 0, seq!['.']) == file_name_scan(Seq::<char>::empty(), 0, d));
    assert(file_name_scan(Seq::<char>::empty(), 0, d) is None);
}

/// A path that is one `.` component — the current directory — has no file
/// name, no file stem and no extension.
pub proof fn lemma_cur_dir_final_component()
    ensures
        file_name_of(seq!['.']) is None,
        file_stem_of(seq!['.']) is None,
        file_name_of(seq!['.', '/']) is None,
        file_stem_of(seq!['.', '/']) is None,
{
    let c = seq!['.'];
    assert(starts_cur_dir(c));
    assert(body_start(c) == 1);
    assert(is_skip_piece(Seq::<char>::empty()));
    assert(file_name_scan(c, 1, Seq::empty()) is None);
    let cs = seq!['.', '/'];
    assert(starts_cur_dir(cs));
    assert(body_start(cs) == 1);
    assert(cs.last() == '/');
    assert(cs.drop_last() =~= c);
    assert(file_name_scan(cs, 1, Seq::empty()) == file_name_scan(c, 1, Seq::empty()));
}

/// A path without a file name has no file stem and no extension either.
pub proof fn lemma_no_file_name_no_stem(p: Seq<char>)
    requires
        file_name_of(p) is None,
    ensures
        file_stem_of(p) is None,
        extension_of(p) is None,
{
}

/// Where `after_last_dot` points: never outside the name, and one past a `.`
/// whenever it is positive.
proof fn lemma_after_last_dot_bounds(n: Seq<char>)
    ensures
        0 <= after_last_dot(n) <= n.len(),
        after_last_dot(n) >= 1 ==> n[after_last_dot(n) - 1] == '.',
    decreases n.len(),
{
    if n.len() == 0 {
    } else if n.last() == '.' {
    } else {
        lemma_after_last_dot_bounds(n.drop_last());
        let k = after_last_dot(n);
        if k >= 1 {
            assert(n.drop_last()[k - 1] == n[k - 1]);
        }
    }
}

/// A file name with no `.` past its first character has no extension and is
/// its own stem.
pub proof fn lemma_no_dot_no_extension(p: Seq<char>, n: Seq<char>)
    requires
        file_name_of(p) == Some(n),
        forall|i: int| 1 <= i < n.len() ==> n[i] != '.',
    ensures
        extension_of(p) is None,
        file_stem_of(p) == Some(n),
{
    lemma_after_last_dot_low(n);
}

/// A name with `.` nowhere past its first character keeps `after_last_dot`
/// at 1 or below.
proof fn lemma_after_last_dot_low(n: Seq<char>)
    requires
        forall|i: int| 1 <= i < n.len() ==> n[i] != '.',
    ensures
        after_last_dot(n) <= 1,
    decreases n.len(),
{
    if n.len() == 0 {
    } else if n.last() == '.' {
        assert(n.len() == 1) by {
            if n.len() > 1 {
                assert(n[n.len() - 1] != '.');
            }
        }
    } else {
        assert forall|i: int| 1 <= i < n.drop_last().len() implies n.drop_last()[i] != '.' by {
            assert(n.drop_last()[i] == n[i]);
        }
        lemma_after_last_dot_low(n.drop_last());
    }
}

/// Round trip: the file stem, a `.` and the extension reassemble the file
/// name exactly; a name without an extension is its own stem, untouched.
pub proof fn lemma_stem_extension_round_trip(p: Seq<char>, n: Seq<char>)
    requires
        file_name_of(p) == Some(n),
    ensures
        file_stem_of(p) == Some(stem_of_name(n)),
        extension_of(p) == extension_of_name(n),
        match extension_of_name(n) {
            Some(x) => stem_of_name(n) + seq!['.'] + x == n,
            None => stem_of_name(n) == n,
        },
{
    lemma_after_last_dot_bounds(n);
    let k = after_last_dot(n);
    if k > 1 {
        assert(n.take(k - 1) + seq!['.'] + n.subrange(k, n.len() as int) =~= n);
    }
}

/// Trimming trailing separators and `.` components keeps a leading part of
/// the sequence untouched.
proof fn lemma_trim_trailing_prefix(s: Seq<char>, floor: nat)
    ensures
        trim_trailing(s, floor).len() <= s.len(),
        trim_trailing(s, floor) == s.take(trim_trailing(s, floor).len() as int),
    decreases s.len(),
{
    if s.len() <= floor {
        assert(s.take(s.len() as int) =~= s);
    } else if is_sep(s.last()) || (s.last() == '.' && (s.len() - 1 == floor || is_sep(
        s[s.len() - 2],
    ))) {
        lemma_trim_trailing_prefix(s.drop_last(), floor);
        let q = trim_trailing(s, floor);
        assert(s.drop_last().take(q.len() as int) =~= s.take(q.len() as int));
    } else {
        assert(s.take(s.len() as int) =~= s);
    }
}

/// The parent scan returns a leading part of the scanned path, untouched.
proof fn lemma_parent_scan_prefix(s: Seq<char>, floor: nat, acc: Seq<char>)
    ensures
        match parent_scan(s, floor, acc) {
            Some(q) => q.len() <= s.len() && q == s.take(q.len() as int),
            None => true,
        },
    decreases s.len(),
{
    if s.len() <= floor {
        if is_skip_piece(acc) {
            if starts_cur_dir(s) {
                assert(Seq::<char>::empty() =~= s.take(0));
            }
        } else {
            assert(s.take(s.len() as int) =~= s);
        }
    } else if is_sep(s.last()) {
        if is_skip_piece(acc) {
            lemma_parent_scan_prefix(s.drop_last(), floor, Seq::empty());
            match parent_scan(s, floor, acc) {
                Some(q) => {
                    assert(s.drop_last().take(q.len() as int) =~= s.take(q.len() as int));
                },
                None => {},
            }
        } else {
            lemma_trim_trailing_prefix(s.drop_last(), floor);
            let q = trim_trailing(s.drop_last(), floor);
            assert(s.drop_last().take(q.len() as int) =~= s.take(q.len() as int));
        }
    } else {
        lemma_parent_scan_prefix(s.drop_last(), floor, seq![s.last()] + acc);
        match parent_scan(s, floor, acc) {
            Some(q) => {
                assert(s.drop_last().take(q.len() as int) =~= s.take(q.len() as int));
            },
            None => {},
        }
    }
}

/// Round trip: a successful parent query returns the leading part of the
/// path itself, untouched.
pub proof fn lemma_parent_is_prefix(p: Seq<char>)
    ensures
        match parent_of(p) {
            Some(q) => q.len() <= p.len() && q == p.take(q.len() as int),
            None => true,
        },
{
    lemma_parent_scan_prefix(p, body_start(p), Seq::empty());
}

/// `n` occurs in `u` as one contiguous, untouched run of characters.
pub open spec fn is_slice_of(n: Seq<char>, u: Seq<char>) -> bool {
    exists|i: int|
        0 <= i && i + n.len() <= u.len() && n == #[trigger] u.subrange(i, i + n.len())
}

/// Scanning backwards through a separator-free piece only gathers it into
/// the accumulator.
proof fn lemma_file_scan_through_piece(s: Seq<char>, floor: nat, piece: Seq<char>, acc: Seq<char>)
    requires
        floor <= s.len(),
        forall|i: int| 0 <= i < piece.len() ==> !is_sep(#[trigger] piece[i]),
    ensures
        file_name_scan(s + piece, floor, acc) == file_name_scan(s, floor, piece + acc),
    decreases piece.len(),
{
    if piece.len() == 0 {
        assert(s + piece =~= s);
        assert(piece + acc =~= acc);
    } else {
        let u = s + piece;
        assert(u.last() == piece.last());
        assert(u.drop_last() =~= s + piece.drop_last());
        assert(seq![u.last()] + acc =~= seq![piece.last()] + acc);
        assert forall|i: int| 0 <= i < piece.drop_last().len() implies !is_sep(
            #[trigger] piece.drop_last()[i],
        ) by {
            assert(piece.drop_last()[i] == piece[i]);
        }
        lemma_file_scan_through_piece(s, floor, piece.drop_last(), seq![piece.last()] + acc);
        assert(piece.drop_last() + (seq![piece.last()] + acc) =~= piece + acc);
    }
}

/// Round trip: appending a separator and a proper name to any path makes
/// that name the path's file name, returned untouched.
pub proof fn lemma_file_name_after_append(q: Seq<char>, name: Seq<char>)
    requires
        forall|i: int| 0 <= i < name.len() ==> !is_sep(#[trigger] name[i]),
        !is_skip_piece(name),
        !is_parent_piece(name),
    ensures
        file_name_of(q + seq!['/'] + name) == Some(name),
{
    let s0 = q + seq!['/'];
    let s = s0 + name;
    let fl = body_start(s);
    assert(fl <= s0.len());
    lemma_file_scan_through_piece(s0, fl, name, Seq::empty());
    assert(name + Seq::<char>::empty() =~= name);
    if s0.len() > fl {
        assert(is_sep(s0.last()));
    }
    assert(q + seq!['/'] + name =~= s);
}

/// The file-name scan returns a contiguous run of the scanned text,
/// untouched.
proof fn lemma_file_scan_slice(s: Seq<char>, floor: nat, acc: Seq<char>)
    ensures
        match file_name_scan(s, floor, acc) {
            Some(n) => is_slice_of(n, s + acc),
            None => true,
        },
    decreases s.len(),
{
    let u = s + acc;
    if s.len() <= floor {
        if !(is_skip_piece(acc) || is_parent_piece(acc)) {
            assert(acc == u.subrange(s.len() as int, s.len() + acc.len() as int)) by {
                assert(u.subrange(s.len() as int, s.len() + acc.len() as int) =~= acc);
            }
            assert(is_slice_of(acc, u));
        }
    } else if is_sep(s.last()) {
        if is_skip_piece(acc) {
            lemma_file_scan_slice(s.drop_last(), floor, Seq::empty());
            match file_name_scan(s, floor, acc) {
                Some(n) => {
                    let v = s.drop_last() + Seq::<char>::empty();
                    let i = choose|i: int|
                        0 <= i && i + n.len() <= v.len() && n == #[trigger] v.subrange(
                            i,
                            i + n.len(),
                        );
                    assert(n == u.subrange(i, i + n.len())) by {
                        assert(u.subrange(i, i + n.len()) =~= v.subrange(i, i + n.len()));
                    }
                    assert(is_slice_of(n, u));
                },
                None => {},
            }
        } else if !is_parent_piece(acc) {
            assert(acc == u.subrange(s.len() as int, s.len() + acc.len() as int)) by {
                assert(u.subrange(s.len() as int, s.len() + acc.len() as int) =~= acc);
            }
            assert(is_slice_of(acc, u));
        }
    } else {
        lemma_file_scan_slice(s.drop_last(), floor, seq![s.last()] + acc);
        let v = s.drop_last() + (seq![s.last()] + acc);
        assert(v =~= u);
        match file_name_scan(s, floor, acc) {
            Some(n) => {
                let i = choose|i: int|
                    0 <= i && i + n.len() <= v.len() && n == #[trigger] v.subrange(
                        i,
                        i + n.len(),
                    );
                assert(n == u.subrange(i, i + n.len())) by {
                    assert(u.subrange(i, i + n.len()) == v.subrange(i, i + n.len()));
                }
                assert(is_slice_of(n, u));
            },
            None => {},
        }
    }
}

/// Round trip: a successful file-name query returns a contiguous run of the
/// path itself, untouched.
pub proof fn lemma_file_name_is_slice(p: Seq<char>)
    ensures
        match file_name_of(p) {
            Some(n) => is_slice_of(n, p),
            None => true,
        },
{
    lemma_file_scan_slice(p, body_start(p), Seq::empty());
    match file_name_of(p) {
        Some(n) => {
            let u = p + Seq::<char>::empty();
            let i = choose|i: int|
                0 <= i && i + n.len() <= u.len() && n == #[trigger] u.subrange(i, i + n.len());
            assert(n == p.subrange(i, i + n.len())) by {
                assert(p.subrange(i, i + n.len()) =~= u.subrange(i, i + n.len()));
            }
            assert(is_slice_of(n, p));
        },
        None => {},
    }
}

} // verus!
