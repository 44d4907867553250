//! The path value and its component queries.
//!
//! [`PathText`] holds a path as UTF-8 text.  Its queries decompose the path
//! by the component rules of [`crate::pathmodel`] and, where a queried
//! component is absent, return a [`PathError`] naming the path itself.

use vstd::prelude::*;

use crate::error::PathError;
use crate::error::annotation_line;
use crate::error::is_annotated;
use crate::error::is_annotated2;
use crate::error::lemma_render_double;
use crate::error::lemma_render_single;
use crate::error::rendered;
use crate::pathmodel::after_last_dot;
use crate::pathmodel::all_skip_pieces;
use crate::pathmodel::body_start;
use crate::pathmodel::front_piece;
use crate::pathmodel::front_piece_len;
use crate::pathmodel::front_rest;
use crate::pathmodel::has_root;
use crate::pathmodel::strip_body;
use crate::pathmodel::strip_prefix_of;
use crate::pathmodel::extension_of;
use crate::pathmodel::file_name_of;
use crate::pathmodel::file_stem_of;
use crate::pathmodel::file_name_scan;
use crate::pathmodel::is_parent_piece;
use crate::pathmodel::is_skip_piece;
use crate::pathmodel::parent_of;
use crate::pathmodel::parent_scan;
use crate::pathmodel::starts_cur_dir;
use crate::pathmodel::trim_leading;
use crate::pathmodel::trim_trailing;

verus! {

/// A filesystem path held as UTF-8 text.
#[derive(Debug)]
pub struct PathText {
    pub text: String,
}

impl View for PathText {
    type V = Seq<char>;

    open spec fn view(&self) -> Seq<char> {
        self.text@
    }
}

/// The characters of an optional owned string.
pub open spec fn opt_chars(o: Option<String>) -> Option<Seq<char>> {
    match o {
        Some(t) => Some(t@),
        None => None,
    }
}

impl PathText {
    /// A path value holding the given text.
    pub fn new(text: String) -> (r: Self)
        ensures
            r@ == text@,
    {
        PathText { text }
    }

    /// The path's text.
    pub fn as_str(&self) -> (r: &str)
        ensures
            r@ == self@,
    {
        self.text.as_str()
    }

    /// The path's text as an owned string.
    pub fn to_text(&self) -> (r: String)
        ensures
            r@ == self@,
    {
        self.text.clone()
    }
}

/// Wraps an absent value as a failure naming the path: `Some` passes its
/// value through unchanged, `None` becomes the given description annotated
/// with the path.
pub fn o2r<T>(path: &PathText, opt: Option<T>, errordesc: &str) -> (r: Result<T, PathError>)
    ensures
        match r {
            Ok(v) => opt == Some(v),
            Err(e) => opt is None && is_annotated(e, errordesc@, "path"@, path@),
        },
{
    match opt {
        Some(v) => Ok(v),
        None => {
            let e = PathError::new(String::from_str(errordesc));
            Err(e.with(String::from_str("path"), path.to_text()))
        },
    }
}

/// The number of leading characters the back scans never step into: 1 for a
/// root `/` or a leading `.` component, else 0.
fn body_start_exec(s: &str) -> (f: usize)
    ensures
        f == body_start(s@),
        f <= s@.len(),
{
    let n = s.unicode_len();
    if n == 0 {
        0
    } else {
        let c0 = s.get_char(0);
        if c0 == '/' {
            1
        } else if c0 == '.' && (n == 1 || s.get_char(1) == '/') {
            1
        } else {
            0
        }
    }
}

/// The back scan for the file name over `s`: the part not yet scanned is
/// `s[..i]` and the piece under the cursor is `s[i..k]`.
fn scan_file_name(s: &str, i: usize, k: usize, floor: usize) -> (r: Option<String>)
    requires
        floor <= i <= k,
        k <= s@.len(),
    ensures
        opt_chars(r) == file_name_scan(s@.take(i as int), floor as nat, s@.subrange(i as int, k as int)),
    decreases i,
{
    let ghost part = s@.take(i as int);
    let ghost acc = s@.subrange(i as int, k as int);
    let acc_skip = k == i || (k - i == 1 && s.get_char(i) == '.');
    let acc_parent = k - i == 2 && s.get_char(i) == '.' && s.get_char(i + 1) == '.';
    proof {
        assert(acc_skip == is_skip_piece(acc));
        assert(acc_parent == is_parent_piece(acc));
    }
    if i <= floor {
        if acc_skip || acc_parent {
            None
        } else {
            Some(String::from_str(s.substring_char(i, k)))
        }
    } else {
        let c = s.get_char(i - 1);
        proof {
            assert(part.last() == c);
            assert(part.drop_last() =~= s@.take(i - 1));
        }
        if c == '/' {
            if acc_skip {
                proof {
                    assert(s@.subrange(i - 1, i - 1) =~= Seq::<char>::empty());
                }
                scan_file_name(s, i - 1, i - 1, floor)
            } else if acc_parent {
                None
            } else {
                Some(String::from_str(s.substring_char(i, k)))
            }
        } else {
            proof {
                assert(seq![part.last()] + acc =~= s@.subrange(i - 1, k as int));
            }
            scan_file_name(s, i - 1, k, floor)
        }
    }
}

/// Scans `s[lo..e]` backwards past trailing separators and trailing `.`
/// components, down to the relative floor `fl`; returns where the kept part
/// ends.
fn trim_trailing_exec(s: &str, lo: usize, e: usize, fl: usize) -> (t: usize)
    requires
        lo + fl <= e,
        e <= s@.len(),
    ensures
        lo + fl <= t <= e,
        s@.subrange(lo as int, t as int) == trim_trailing(s@.subrange(lo as int, e as int), fl as nat),
    decreases e,
{
    let ghost part = s@.subrange(lo as int, e as int);
    if e == lo + fl {
        e
    } else {
        let c = s.get_char(e - 1);
        proof {
            assert(part.last() == c);
            assert(part.drop_last() =~= s@.subrange(lo as int, e - 1));
        }
        if c == '/' {
            trim_trailing_exec(s, lo, e - 1, fl)
        } else if c == '.' && (e - 1 == lo + fl || s.get_char(e - 2) == '/') {
            proof {
                if e - 1 > lo + fl {
                    assert(part[part.len() - 2] == s@[e - 2]);
                }
            }
            trim_trailing_exec(s, lo, e - 1, fl)
        } else {
            e
        }
    }
}

/// The back scan for the parent path over `s`: the part of the path not yet
/// scanned is `s[..i]` and the piece under the cursor is `s[i..k]`.
fn scan_parent(s: &str, i: usize, k: usize, floor: usize) -> (r: Option<String>)
    requires
        floor == body_start(s@),
        floor <= i <= k,
        k <= s@.len(),
    ensures
        opt_chars(r) == parent_scan(s@.take(i as int), floor as nat, s@.subrange(i as int, k as int)),
    decreases i,
{
    let ghost part = s@.take(i as int);
    let ghost acc = s@.subrange(i as int, k as int);
    let acc_skip = k == i || (k - i == 1 && s.get_char(i) == '.');
    proof {
        assert(acc_skip == is_skip_piece(acc));
    }
    if i <= floor {
        if acc_skip {
            if floor == 1 && s.get_char(0) == '.' {
                let empty_text = String::new();
                proof {
                    assert(part =~= s@.take(1));
                    assert(starts_cur_dir(part));
                    assert(empty_text@ =~= Seq::<char>::empty());
                }
                Some(empty_text)
            } else {
                proof {
                    assert(!starts_cur_dir(part)) by {
                        if floor == 1 {
                            assert(part.len() == 1 && part[0] == s@[0]);
                        }
                    }
                }
                None
            }
        } else {
            Some(String::from_str(s.substring_char(0, i)))
        }
    } else {
        let c = s.get_char(i - 1);
        proof {
            assert(part.last() == c);
            assert(part.drop_last() =~= s@.take(i - 1));
        }
        if c == '/' {
            if acc_skip {
                proof {
                    assert(s@.subrange(i - 1, i - 1) =~= Seq::<char>::empty());
                }
                scan_parent(s, i - 1, i - 1, floor)
            } else {
                let t = trim_trailing_exec(s, 0, i - 1, floor);
                proof {
                    assert(s@.subrange(0, t as int) =~= s@.take(t as int));
                    assert(s@.subrange(0, i - 1) =~= part.drop_last());
                }
                Some(String::from_str(s.substring_char(0, t)))
            }
        } else {
            proof {
                assert(seq![part.last()] + acc =~= s@.subrange(i - 1, k as int));
            }
            scan_parent(s, i - 1, k, floor)
        }
    }
}

/// The parent of the path, when it has one.
fn parent_opt(s: &str) -> (r: Option<String>)
    ensures
        opt_chars(r) == parent_of(s@),
{
    let n = s.unicode_len();
    let floor = body_start_exec(s);
    proof {
        assert(s@.take(n as int) =~= s@);
        assert(s@.subrange(n as int, n as int) =~= Seq::<char>::empty());
    }
    scan_parent(s, n, n, floor)
}

/// The file name of the path, when its final component is a proper name.
fn file_name_opt(s: &str) -> (r: Option<String>)
    ensures
        opt_chars(r) == file_name_of(s@),
{
    let n = s.unicode_len();
    let floor = body_start_exec(s);
    proof {
        assert(s@.take(n as int) =~= s@);
        assert(s@.subrange(n as int, n as int) =~= Seq::<char>::empty());
    }
    scan_file_name(s, n, n, floor)
}

/// The length of the run of non-separator characters at the front of the
/// body slice `s[i..]`.
fn front_piece_len_exec(s: &str, i: usize) -> (k: usize)
    requires
        i <= s@.len(),
    ensures
        k == front_piece_len(s@.skip(i as int)),
        i + k <= s@.len(),
    decreases s@.len() - i,
{
    let ghost rest = s@.skip(i as int);
    if i == s.unicode_len() {
        0
    } else if s.get_char(i) == '/' {
        proof {
            assert(rest[0] == s@[i as int]);
        }
        0
    } else {
        proof {
            assert(rest[0] == s@[i as int]);
            assert(rest.drop_first() =~= s@.skip(i + 1));
        }
        1 + front_piece_len_exec(s, i + 1)
    }
}

/// Whether the character ranges `p[pi..pi+n]` and `b[bi..bi+n]` hold the
/// same text.
fn ranges_equal(p: &str, pi: usize, b: &str, bi: usize, n: usize) -> (r: bool)
    requires
        pi + n <= p@.len(),
        bi + n <= b@.len(),
    ensures
        r == (p@.subrange(pi as int, (pi + n) as int) == b@.subrange(bi as int, (bi + n) as int)),
{
    let ghost pp = p@.subrange(pi as int, (pi + n) as int);
    let ghost bp = b@.subrange(bi as int, (bi + n) as int);
    let plen: usize = p.unicode_len();
    let blen: usize = b.unicode_len();
    let mut j: usize = 0;
    while j < n
        invariant
            j <= n,
            pi + n <= p@.len(),
            bi + n <= b@.len(),
            p@.len() == plen,
            b@.len() == blen,
            pp == p@.subrange(pi as int, (pi + n) as int),
            bp == b@.subrange(bi as int, (bi + n) as int),
            forall|x: int| 0 <= x < j ==> pp[x] == bp[x],
        decreases n - j,
    {
        if p.get_char(pi + j) != b.get_char(bi + j) {
            proof {
                assert(pp[j as int] != bp[j as int]);
            }
            return false;
        }
        j = j + 1;
    }
    proof {
        assert(pp =~= bp);
    }
    true
}

/// Strips the components of the body slice `b[bi..]` from the front of the
/// body slice `p[pi..]`; `Some` holds where the remainder of `p` starts.
fn strip_body_exec(p: &str, pi: usize, b: &str, bi: usize) -> (r: Option<usize>)
    requires
        pi <= p@.len(),
        bi <= b@.len(),
    ensures
        match r {
            Some(t) => pi <= t <= p@.len() && strip_body(p@.skip(pi as int), b@.skip(bi as int))
                == Some(p@.skip(t as int)),
            None => strip_body(p@.skip(pi as int), b@.skip(bi as int)) is None,
        },
    decreases b@.len() - bi, p@.len() - pi,
{
    let ghost ps = p@.skip(pi as int);
    let ghost bs = b@.skip(bi as int);
    let plen = p.unicode_len();
    let blen = b.unicode_len();
    if bi == blen {
        proof {
            assert(bs.len() == 0);
        }
        Some(pi)
    } else {
        let kb = front_piece_len_exec(b, bi);
        let ghost bpiece = front_piece(bs);
        proof {
            assert(front_piece_len(bs) == kb);
            assert(bpiece =~= b@.subrange(bi as int, (bi + kb) as int));
        }
        let b_skip = kb == 0 || (kb == 1 && b.get_char(bi) == '.');
        proof {
            assert(b_skip == is_skip_piece(bpiece)) by {
                assert(kb >= 1 ==> bpiece[0] == b@[bi as int]);
            }
        }
        if b_skip {
            let nbi = if bi + kb == blen {
                blen
            } else {
                bi + kb + 1
            };
            proof {
                assert(front_rest(bs) =~= b@.skip(nbi as int));
            }
            strip_body_exec(p, pi, b, nbi)
        } else if pi == plen {
            proof {
                assert(ps.len() == 0);
            }
            None
        } else {
            let kp = front_piece_len_exec(p, pi);
            let ghost ppiece = front_piece(ps);
            proof {
                assert(front_piece_len(ps) == kp);
                assert(ppiece =~= p@.subrange(pi as int, (pi + kp) as int));
            }
            let p_skip = kp == 0 || (kp == 1 && p.get_char(pi) == '.');
            proof {
                assert(p_skip == is_skip_piece(ppiece)) by {
                    assert(kp >= 1 ==> ppiece[0] == p@[pi as int]);
                }
            }
            if p_skip {
                let npi = if pi + kp == plen {
                    plen
                } else {
                    pi + kp + 1
                };
                proof {
                    assert(front_rest(ps) =~= p@.skip(npi as int));
                }
                strip_body_exec(p, npi, b, bi)
            } else if kp == kb && ranges_equal(p, pi, b, bi, kp) {
                let npi = if pi + kp == plen {
                    plen
                } else {
                    pi + kp + 1
                };
                let nbi = if bi + kb == blen {
                    blen
                } else {
                    bi + kb + 1
                };
                proof {
                    assert(ppiece == bpiece);
                    assert(front_rest(ps) =~= p@.skip(npi as int));
                    assert(front_rest(bs) =~= b@.skip(nbi as int));
                }
                strip_body_exec(p, npi, b, nbi)
            } else {
                proof {
                    assert(ppiece != bpiece) by {
                        if kp != kb {
                            assert(ppiece.len() != bpiece.len());
                        }
                    }
                }
                None
            }
        }
    }
}

/// Whether the body slice `b[bi..]` holds no component at all.
fn all_skip_exec(b: &str, bi: usize) -> (r: bool)
    requires
        bi <= b@.len(),
    ensures
        r == all_skip_pieces(b@.skip(bi as int)),
    decreases b@.len() - bi,
{
    let ghost bs = b@.skip(bi as int);
    let blen = b.unicode_len();
    if bi == blen {
        true
    } else {
        let kb = front_piece_len_exec(b, bi);
        let ghost bpiece = front_piece(bs);
        proof {
            assert(front_piece_len(bs) == kb);
            assert(bpiece =~= b@.subrange(bi as int, (bi + kb) as int));
        }
        let b_skip = kb == 0 || (kb == 1 && b.get_char(bi) == '.');
        proof {
            assert(b_skip == is_skip_piece(bpiece)) by {
                assert(kb >= 1 ==> bpiece[0] == b@[bi as int]);
            }
        }
        if b_skip {
            let nbi = if bi + kb == blen {
                blen
            } else {
                bi + kb + 1
            };
            proof {
                assert(front_rest(bs) =~= b@.skip(nbi as int));
            }
            all_skip_exec(b, nbi)
        } else {
            false
        }
    }
}

/// Scans the body slice `s[i..]` forwards past leading separators and `.`
/// components; returns where the kept part starts.
fn trim_leading_exec(s: &str, i: usize) -> (t: usize)
    requires
        i <= s@.len(),
    ensures
        i <= t <= s@.len(),
        s@.skip(t as int) == trim_leading(s@.skip(i as int)),
    decreases s@.len() - i,
{
    let ghost rest = s@.skip(i as int);
    let n = s.unicode_len();
    if i == n {
        i
    } else {
        let c = s.get_char(i);
        proof {
            assert(rest[0] == s@[i as int]);
            assert(rest.drop_first() =~= s@.skip(i + 1));
            assert(rest.len() == 1 <==> i + 1 == n);
            if i + 1 < n {
                assert(rest[1] == s@[i + 1]);
            }
        }
        if c == '/' {
            trim_leading_exec(s, i + 1)
        } else if c == '.' && (i + 1 == n || s.get_char(i + 1) == '/') {
            trim_leading_exec(s, i + 1)
        } else {
            i
        }
    }
}

/// One past the position of the last `.` in `n[..e]`; 0 when there is none.
fn after_last_dot_exec(n: &str, e: usize) -> (k: usize)
    requires
        e <= n@.len(),
    ensures
        k == after_last_dot(n@.take(e as int)),
        k <= e,
    decreases e,
{
    let ghost part = n@.take(e as int);
    if e == 0 {
        0
    } else {
        let c = n.get_char(e - 1);
        proof {
            assert(part.last() == c);
            assert(part.drop_last() =~= n@.take(e - 1));
        }
        if c == '.' {
            e
        } else {
            after_last_dot_exec(n, e - 1)
        }
    }
}

impl PathText {
    /// The final component of the path, or the failure `no file name`
    /// annotated with the path, when that component is a root, `.` or `..`,
    /// or the path is empty.
    pub fn pe_file_name(&self) -> (r: Result<String, PathError>)
        ensures
            match r {
                Ok(n) => file_name_of(self@) == Some(n@),
                Err(e) => file_name_of(self@) is None && is_annotated(
                    e,
                    "no file name"@,
                    "path"@,
                    self@,
                ),
            },
    {
        let opt = file_name_opt(self.text.as_str());
        o2r(self, opt, "no file name")
    }

    /// The path with its final component removed, or the failure
    /// `no parent path` annotated with the path, when the path is empty or
    /// is a root alone.
    pub fn pe_parent(&self) -> (r: Result<PathText, PathError>)
        ensures
            match r {
                Ok(q) => parent_of(self@) == Some(q@),
                Err(e) => parent_of(self@) is None && is_annotated(
                    e,
                    "no parent path"@,
                    "path"@,
                    self@,
                ),
            },
    {
        let opt = match parent_opt(self.text.as_str()) {
            Some(t) => Some(PathText::new(t)),
            None => None,
        };
        o2r(self, opt, "no parent path")
    }

    /// The path's text, since a [`PathText`] always holds valid UTF-8; the
    /// `invalid utf8` failure this query reports elsewhere cannot arise here.
    pub fn pe_to_str(&self) -> (r: Result<&str, PathError>)
        ensures
            match r {
                Ok(t) => t@ == self@,
                Err(_) => false,
            },
    {
        Ok(self.text.as_str())
    }

    /// The file name as UTF-8 text.  On a [`PathText`] the name is always
    /// valid UTF-8, so this fails exactly when [`PathText::pe_file_name`]
    /// does.
    pub fn pe_file_name_str(&self) -> (r: Result<String, PathError>)
        ensures
            match r {
                Ok(n) => file_name_of(self@) == Some(n@),
                Err(e) => file_name_of(self@) is None && is_annotated(
                    e,
                    "no file name"@,
                    "path"@,
                    self@,
                ),
            },
    {
        self.pe_file_name()
    }

    /// The file name with its final extension removed, or the failure
    /// `no file name` annotated with the path.
    pub fn pe_file_stem(&self) -> (r: Result<String, PathError>)
        ensures
            match r {
                Ok(n) => file_stem_of(self@) == Some(n@),
                Err(e) => file_stem_of(self@) is None && is_annotated(
                    e,
                    "no file name"@,
                    "path"@,
                    self@,
                ),
            },
    {
        let opt = match file_name_opt(self.text.as_str()) {
            Some(name) => {
                let len = name.as_str().unicode_len();
                let k = after_last_dot_exec(name.as_str(), len);
                proof {
                    assert(name@.take(len as int) =~= name@);
                }
                if k <= 1 {
                    Some(name)
                } else {
                    Some(String::from_str(name.as_str().substring_char(0, k - 1)))
                }
            },
            None => None,
        };
        o2r(self, opt, "no file name")
    }

    /// The file stem as UTF-8 text; fails exactly when
    /// [`PathText::pe_file_stem`] does.
    pub fn pe_file_stem_str(&self) -> (r: Result<String, PathError>)
        ensures
            match r {
                Ok(n) => file_stem_of(self@) == Some(n@),
                Err(e) => file_stem_of(self@) is None && is_annotated(
                    e,
                    "no file name"@,
                    "path"@,
                    self@,
                ),
            },
    {
        self.pe_file_stem()
    }

    /// What follows the last `.` of the file name, or the failure
    /// `no file name or no extension` annotated with the path.
    pub fn pe_extension(&self) -> (r: Result<String, PathError>)
        ensures
            match r {
                Ok(n) => extension_of(self@) == Some(n@),
                Err(e) => extension_of(self@) is None && is_annotated(
                    e,
                    "no file name or no extension"@,
                    "path"@,
                    self@,
                ),
            },
    {
        let opt = match file_name_opt(self.text.as_str()) {
            Some(name) => {
                let len = name.as_str().unicode_len();
                let k = after_last_dot_exec(name.as_str(), len);
                proof {
                    assert(name@.take(len as int) =~= name@);
                }
                if k <= 1 {
                    None
                } else {
                    Some(String::from_str(name.as_str().substring_char(k, len)))
                }
            },
            None => None,
        };
        o2r(self, opt, "no file name or no extension")
    }

    /// The path with the components of `base` stripped from its front, or
    /// the failure `prefix mismatch` annotated first with the prefix and
    /// then with the path, when the path does not start with `base`,
    /// component by component.
    pub fn pe_strip_prefix(&self, base: &PathText) -> (r: Result<PathText, PathError>)
        ensures
            match r {
                Ok(q) => strip_prefix_of(self@, base@) == Some(q@),
                Err(e) => strip_prefix_of(self@, base@) is None && is_annotated2(
                    e,
                    "prefix mismatch"@,
                    "prefix"@,
                    base@,
                    "path"@,
                    self@,
                ),
            },
    {
        let p = self.text.as_str();
        let b = base.text.as_str();
        let plen = p.unicode_len();
        let blen = b.unicode_len();
        let p_root = plen > 0 && p.get_char(0) == '/';
        let b_root = blen > 0 && b.get_char(0) == '/';
        let p_cur = !p_root && plen > 0 && p.get_char(0) == '.' && (plen == 1 || p.get_char(1)
            == '/');
        let b_cur = !b_root && blen > 0 && b.get_char(0) == '.' && (blen == 1 || b.get_char(1)
            == '/');
        proof {
            assert(p_root == has_root(self@));
            assert(b_root == has_root(base@));
            assert(p_cur == starts_cur_dir(self@));
            assert(b_cur == starts_cur_dir(base@));
        }
        let outcome: Option<String> = if b_root || b_cur {
            if (b_root && p_root) || (b_cur && p_cur) {
                match strip_body_exec(p, 1, b, 1) {
                    Some(t) => {
                        let tl = trim_leading_exec(p, t);
                        let tr = trim_trailing_exec(p, tl, plen, 0);
                        proof {
                            assert(p@.subrange(tl as int, plen as int) =~= p@.skip(tl as int));
                        }
                        Some(String::from_str(p.substring_char(tl, tr)))
                    },
                    None => None,
                }
            } else {
                None
            }
        } else if p_root || p_cur {
            proof {
                assert(b@.skip(0) =~= b@);
            }
            if all_skip_exec(b, 0) {
                let fl = body_start_exec(p);
                let tr = trim_trailing_exec(p, 0, plen, fl);
                proof {
                    assert(p@.subrange(0, plen as int) =~= p@);
                }
                Some(String::from_str(p.substring_char(0, tr)))
            } else {
                None
            }
        } else {
            proof {
                assert(p@.skip(0) =~= p@);
                assert(b@.skip(0) =~= b@);
            }
            match strip_body_exec(p, 0, b, 0) {
                Some(t) => {
                    let tl = trim_leading_exec(p, t);
                    let tr = trim_trailing_exec(p, tl, plen, 0);
                    proof {
                        assert(p@.subrange(tl as int, plen as int) =~= p@.skip(tl as int));
                    }
                    Some(String::from_str(p.substring_char(tl, tr)))
                },
                None => None,
            }
        };
        match outcome {
            Some(t) => Ok(PathText::new(t)),
            None => {
                let e = PathError::new(String::from_str("prefix mismatch")).with(
                    String::from_str("prefix"),
                    base.to_text(),
                ).with(String::from_str("path"), self.to_text());
                Err(e)
            },
        }
    }

    /// The extension as UTF-8 text; fails exactly when
    /// [`PathText::pe_extension`] does.
    pub fn pe_extension_str(&self) -> (r: Result<String, PathError>)
        ensures
            match r {
                Ok(n) => extension_of(self@) == Some(n@),
                Err(e) => extension_of(self@) is None && is_annotated(
                    e,
                    "no file name or no extension"@,
                    "path"@,
                    self@,
                ),
            },
    {
        self.pe_extension()
    }
}

/// A path without a parent component: the failure `pe_parent` returns
/// renders as `no parent path` followed by one line naming the path.
pub proof fn lemma_parent_failure_text(p: Seq<char>, e: PathError)
    requires
        parent_of(p) is None,
        is_annotated(e, "no parent path"@, "path"@, p),
    ensures
        rendered(e) == "no parent path"@ + annotation_line("path"@, p),
{
    lemma_render_single(e, "no parent path"@, "path"@, p);
}

/// A path without a proper file name: the failure `pe_file_name` and
/// `pe_file_stem` return renders as `no file name` followed by one line
/// naming the path.
pub proof fn lemma_file_name_failure_text(p: Seq<char>, e: PathError)
    requires
        file_name_of(p) is None,
        is_annotated(e, "no file name"@, "path"@, p),
    ensures
        rendered(e) == "no file name"@ + annotation_line("path"@, p),
{
    lemma_render_single(e, "no file name"@, "path"@, p);
}

/// A path that does not start with the given prefix: the failure
/// `pe_strip_prefix` returns renders as `prefix mismatch` followed by a line
/// naming the prefix and then a line naming the path, in that order.
pub proof fn lemma_strip_prefix_failure_text(p: Seq<char>, b: Seq<char>, e: PathError)
    requires
        strip_prefix_of(p, b) is None,
        is_annotated2(e, "prefix mismatch"@, "prefix"@, b, "path"@, p),
    ensures
        rendered(e) == "prefix mismatch"@ + annotation_line("prefix"@, b) + annotation_line(
            "path"@,
            p,
        ),
{
    lemma_render_double(e, "prefix mismatch"@, "prefix"@, b, "path"@, p);
}

} // verus!
