//! Paths as text: joining, naming and ordering, following the Unix rules of `std::path`.
use vstd::prelude::*;
use crate::text::{
    chars_less, chars_lt, chars_of, copy_range, lemma_chars_lt_asymmetric, push_all, split_char,
    split_spec, string_from_chars, views,
};

verus! {

/// `Path::join` on Unix: an absolute `rel` replaces `base`; otherwise a `/`
/// separates the two unless `base` is empty or already ends with one.
pub open spec fn join_path_spec(base: Seq<char>, rel: Seq<char>) -> Seq<char> {
    if rel.len() > 0 && rel[0] == '/' {
        rel
    } else if base.len() == 0 {
        rel
    } else if base.last() == '/' {
        base + rel
    } else {
        base + seq!['/'] + rel
    }
}

/// `base.join(rel)`.
pub fn path_join(base: &str, rel: &str) -> (r: String)
    ensures
        r@ == join_path_spec(base@, rel@),
{
    let b = chars_of(base);
    let r = chars_of(rel);
    let mut out: Vec<char> = Vec::new();
    if r.len() > 0 && r[0] == '/' {
        push_all(&mut out, &r);
    } else if b.len() == 0 {
        push_all(&mut out, &r);
    } else if b[b.len() - 1] == '/' {
        push_all(&mut out, &b);
        push_all(&mut out, &r);
    } else {
        push_all(&mut out, &b);
        out.push('/');
        push_all(&mut out, &r);
    }
    string_from_chars(&out)
}

/// A piece of a path that names something: not empty and not `.`.
pub open spec fn is_named_piece(p: Seq<char>) -> bool {
    p.len() > 0 && p != seq!['.']
}

/// The last piece of `ps` that names something.
pub open spec fn last_named_piece(ps: Seq<Seq<char>>) -> Option<Seq<char>>
    decreases ps.len(),
{
    if ps.len() == 0 {
        None
    } else if is_named_piece(ps.last()) {
        Some(ps.last())
    } else {
        last_named_piece(ps.drop_last())
    }
}

/// `Path::file_name` on Unix: the last component, unless it is `..` or there is none.
pub open spec fn file_name_spec(path: Seq<char>) -> Option<Seq<char>> {
    match last_named_piece(split_spec(path, '/')) {
        Some(n) => if n == seq!['.', '.'] { None } else { Some(n) },
        None => None,
    }
}

fn is_named(p: &Vec<char>) -> (b: bool)
    ensures
        b == is_named_piece(p@),
{
    if p.len() == 0 {
        return false;
    }
    if p.len() == 1 && p[0] == '.' {
        assert(p@ == seq!['.']);
        return false;
    }
    proof {
        if p@ == seq!['.'] {
            assert(p@[0] == '.');
        }
    }
    true
}

/// `path.file_name()`.
pub fn file_name(path: &Vec<char>) -> (r: Option<Vec<char>>)
    ensures
        match r {
            Some(n) => file_name_spec(path@) == Some(n@),
            None => file_name_spec(path@) is None,
        },
{
    let pieces = split_char(path, '/');
    let ghost ps = views(pieces@);
    let mut i: usize = pieces.len();
    assert(ps.take(i as int) == ps);
    while i > 0
        invariant
            i <= pieces@.len(),
            ps == views(pieces@),
            last_named_piece(ps) == last_named_piece(ps.take(i as int)),
            ps == split_spec(path@, '/'),
        decreases i,
    {
        let piece = chars_of(pieces[i - 1].as_str());
        assert(ps.take(i as int).last() == piece@);
        assert(ps.take(i as int).drop_last() == ps.take(i - 1));
        if is_named(&piece) {
            if piece.len() == 2 && piece[0] == '.' && piece[1] == '.' {
                assert(piece@ == seq!['.', '.']);
                return None;
            }
            proof {
                if piece@ == seq!['.', '.'] {
                    assert(piece@[0] == '.' && piece@[1] == '.');
                }
            }
            return Some(piece);
        }
        i = i - 1;
    }
    None
}

/// The index of the last occurrence of `c` in `s`.
pub open spec fn rfind_char(s: Seq<char>, c: char) -> Option<int>
    decreases s.len(),
{
    if s.len() == 0 {
        None
    } else if s.last() == c {
        Some(s.len() - 1)
    } else {
        rfind_char(s.drop_last(), c)
    }
}

/// `Path::file_stem` of a file name: the name up to its last `.`, unless the
/// name has no `.` or starts with its only `.`.
pub open spec fn stem_of_name(n: Seq<char>) -> Seq<char> {
    match rfind_char(n, '.') {
        Some(i) => if i == 0 { n } else { n.take(i) },
        None => n,
    }
}

/// `Path::extension` of a file name: what follows its last `.`, when that `.`
/// is not the first character.
pub open spec fn extension_of_name(n: Seq<char>) -> Option<Seq<char>> {
    match rfind_char(n, '.') {
        Some(i) => if i == 0 { None } else { Some(n.skip(i + 1)) },
        None => None,
    }
}

proof fn lemma_rfind_bound(s: Seq<char>, c: char)
    ensures
        rfind_char(s, c) matches Some(i) ==> 0 <= i < s.len() && s[i] == c,
    decreases s.len(),
{
    if s.len() > 0 && s.last() != c {
        lemma_rfind_bound(s.drop_last(), c);
    }
}

/// The index of the last `c` in `s`.
pub fn rfind(s: &Vec<char>, c: char) -> (r: Option<usize>)
    ensures
        match r {
            Some(i) => rfind_char(s@, c) == Some(i as int),
            None => rfind_char(s@, c) is None,
        },
{
    let mut i: usize = s.len();
    assert(s@.take(i as int) == s@);
    while i > 0
        invariant
            i <= s@.len(),
            rfind_char(s@, c) == rfind_char(s@.take(i as int), c),
        decreases i,
    {
        assert(s@.take(i as int).last() == s@[i - 1]);
        assert(s@.take(i as int).drop_last() == s@.take(i - 1));
        if s[i - 1] == c {
            return Some(i - 1);
        }
        i = i - 1;
    }
    None
}

/// The stem of a file name.
pub fn stem_of(n: &Vec<char>) -> (r: Vec<char>)
    ensures
        r@ == stem_of_name(n@),
{
    match rfind(n, '.') {
        Some(i) => {
            proof { lemma_rfind_bound(n@, '.'); }
            if i == 0 {
                copy_range(n, 0, n.len())
            } else {
                copy_range(n, 0, i)
            }
        },
        None => copy_range(n, 0, n.len()),
    }
}

/// The extension of a file name.
pub fn extension_of(n: &Vec<char>) -> (r: Option<Vec<char>>)
    ensures
        match r {
            Some(e) => extension_of_name(n@) == Some(e@),
            None => extension_of_name(n@) is None,
        },
{
    match rfind(n, '.') {
        Some(i) => {
            proof { lemma_rfind_bound(n@, '.'); }
            assert(i < n@.len() && n@.len() == n.len());
            if i == 0 {
                None
            } else {
                Some(copy_range(n, i + 1, n.len()))
            }
        },
        None => None,
    }
}

/// Whether a file name has the extension `md`.
pub open spec fn is_markdown_name(n: Seq<char>) -> bool {
    extension_of_name(n) == Some(seq!['m', 'd'])
}

/// `Path::new(name).extension().is_some_and(|e| e == "md")`.
pub fn is_markdown(n: &Vec<char>) -> (b: bool)
    ensures
        b == is_markdown_name(n@),
{
    match extension_of(n) {
        Some(e) => {
            let b = e.len() == 2 && e[0] == 'm' && e[1] == 'd';
            proof {
                if b {
                    assert(e@ == seq!['m', 'd']);
                }
                if e@ == seq!['m', 'd'] {
                    assert(e@[0] == 'm' && e@[1] == 'd');
                }
            }
            b
        },
        None => false,
    }
}

/// A name that `starts_with('.')`.
pub open spec fn is_hidden_name(n: Seq<char>) -> bool {
    n.len() > 0 && n[0] == '.'
}

/// Whether a name starts with `.`.
pub fn is_hidden(n: &Vec<char>) -> (b: bool)
    ensures
        b == is_hidden_name(n@),
{
    n.len() > 0 && n[0] == '.'
}

/// The name for what `Path::strip_prefix` gives, rendered as text: the rest
/// of `path` after `base` where `base`'s components begin `path`'s, else
/// nothing.
pub uninterp spec fn spec_strip_prefix(path: Seq<char>, base: Seq<char>) -> Option<Seq<char>>;

/// Calls `Path::strip_prefix`; what `Components::as_path` leaves of the rest
/// is named, not stated.
#[verifier::external_body]
fn strip_prefix(path: &str, base: &str) -> (r: Option<String>)
    ensures
        match r {
            Some(x) => spec_strip_prefix(path@, base@) == Some(x@),
            None => spec_strip_prefix(path@, base@) is None,
        },
{
    std::path::Path::new(path).strip_prefix(base).ok().map(|p| p.to_string_lossy().into_owned())
}

/// `path` relative to `base` where `base` begins it, else `path` itself.
pub open spec fn spec_relative_to(path: Seq<char>, base: Seq<char>) -> Seq<char> {
    match spec_strip_prefix(path, base) {
        Some(rest) => rest,
        None => path,
    }
}

/// `path.strip_prefix(base).unwrap_or(path)`.
pub fn relative_to(path: &str, base: &str) -> (r: String)
    ensures
        r@ == spec_relative_to(path@, base@),
{
    match strip_prefix(path, base) {
        Some(rest) => rest,
        None => path.to_string(),
    }
}

} // verus!

verus! {

/// The pieces of a path that its order compares: its `/`-separated pieces
/// other than empty ones and `.`. Unlike the components of std's `Path`, a
/// leading `/` or `.` is not a piece of its own, and `..` is a piece like any
/// other.
pub open spec fn components(p: Seq<char>) -> Seq<Seq<char>> {
    split_spec(p, '/').filter(|x: Seq<char>| is_named_piece(x))
}

/// Lexicographic order over component lists, each component in the order of `str`.
pub open spec fn components_lt(a: Seq<Seq<char>>, b: Seq<Seq<char>>) -> bool
    decreases a.len(),
{
    if a.len() == 0 {
        b.len() > 0
    } else if b.len() == 0 {
        false
    } else if a[0] != b[0] {
        chars_lt(a[0], b[0])
    } else {
        components_lt(a.drop_first(), b.drop_first())
    }
}

/// The order of paths in listings: piece by piece (see `components`), each
/// piece compared as text. It is the order of std's `Path` on paths that hold
/// no `..` piece, that both begin with `/` or both do not, and that do not
/// begin with a `.` piece, as the paths a walk of the vault finds are.
pub open spec fn path_lt(a: Seq<char>, b: Seq<char>) -> bool {
    components_lt(components(a), components(b))
}

/// No two component lists are each before the other.
pub proof fn lemma_components_lt_asymmetric(a: Seq<Seq<char>>, b: Seq<Seq<char>>)
    ensures
        components_lt(a, b) ==> !components_lt(b, a),
    decreases a.len(),
{
    if a.len() > 0 && b.len() > 0 {
        if a[0] == b[0] {
            lemma_components_lt_asymmetric(a.drop_first(), b.drop_first());
        } else {
            lemma_chars_lt_asymmetric(a[0], b[0]);
        }
    }
}

/// No two paths are each before the other.
pub proof fn lemma_path_lt_asymmetric(a: Seq<char>, b: Seq<char>)
    ensures
        path_lt(a, b) ==> !path_lt(b, a),
{
    lemma_components_lt_asymmetric(components(a), components(b));
}

/// The components of `p`.
pub fn path_components(p: &str) -> (r: Vec<Vec<char>>)
    ensures
        r@.map_values(|x: Vec<char>| x@) == components(p@),
{
    let cs = chars_of(p);
    let pieces = split_char(&cs, '/');
    let ghost ps = views(pieces@);
    let mut r: Vec<Vec<char>> = Vec::new();
    let n = pieces.len();
    let mut i: usize = 0;
    while i < n
        invariant
            n == pieces@.len(),
            i <= n,
            ps == views(pieces@),
            ps == split_spec(cs@, '/'),
            r@.map_values(|x: Vec<char>| x@) == ps.take(i as int).filter(
                |x: Seq<char>| is_named_piece(x),
            ),
        decreases n - i,
    {
        assert(ps.take(i + 1).drop_last() == ps.take(i as int));
        reveal_with_fuel(Seq::filter, 1);
        let piece = chars_of(pieces[i].as_str());
        assert(ps.take(i + 1).last() == piece@);
        if is_named(&piece) {
            let ghost before = r@;
            r.push(piece);
            assert(r@.map_values(|x: Vec<char>| x@) == before.map_values(|x: Vec<char>| x@).push(
                piece@,
            ));
        }
        i = i + 1;
    }
    assert(ps.take(n as int) == ps);
    r
}

/// Whether path `a` comes before path `b` in the order of `path_lt`.
pub fn path_less(a: &str, b: &str) -> (r: bool)
    ensures
        r == path_lt(a@, b@),
{
    let x = path_components(a);
    let y = path_components(b);
    let ghost xs = x@.map_values(|v: Vec<char>| v@);
    let ghost ys = y@.map_values(|v: Vec<char>| v@);
    let mut i: usize = 0;
    assert(xs.skip(0) == xs && ys.skip(0) == ys);
    loop
        invariant
            xs == x@.map_values(|v: Vec<char>| v@),
            ys == y@.map_values(|v: Vec<char>| v@),
            xs == components(a@),
            ys == components(b@),
            i <= x@.len(),
            i <= y@.len(),
            path_lt(a@, b@) == components_lt(xs.skip(i as int), ys.skip(i as int)),
        decreases x@.len() - i,
    {
        if i == x.len() {
            return i < y.len();
        }
        if i == y.len() {
            return false;
        }
        assert(xs.skip(i as int)[0] == x@[i as int]@ && ys.skip(i as int)[0] == y@[i as int]@);
        let less = chars_less(&x[i], &y[i]);
        let greater = chars_less(&y[i], &x[i]);
        if less {
            proof {
                crate::text::lemma_chars_lt_irreflexive(x@[i as int]@);
            }
            return true;
        }
        if greater {
            proof {
                lemma_chars_lt_asymmetric(y@[i as int]@, x@[i as int]@);
            }
            return false;
        }
        proof {
            if x@[i as int]@ != y@[i as int]@ {
                crate::text::lemma_chars_lt_total(x@[i as int]@, y@[i as int]@);
            }
        }
        assert(xs.skip(i as int).drop_first() == xs.skip(i + 1));
        assert(ys.skip(i as int).drop_first() == ys.skip(i + 1));
        i = i + 1;
    }
}

} // verus!

verus! {

/// Where `rfind_char` finds `c`, `c` stands there.
pub proof fn lemma_rfind_found(s: Seq<char>, c: char)
    ensures
        rfind_char(s, c) matches Some(i) ==> 0 <= i < s.len() && s[i] == c,
{
    lemma_rfind_bound(s, c);
}

} // verus!

verus! {

proof fn lemma_components_lt_transitive(a: Seq<Seq<char>>, b: Seq<Seq<char>>, c: Seq<Seq<char>>)
    requires
        components_lt(a, b),
        components_lt(b, c),
    ensures
        components_lt(a, c),
    decreases a.len(),
{
    if a.len() > 0 && b.len() > 0 && c.len() > 0 {
        if a[0] == b[0] && b[0] == c[0] {
            lemma_components_lt_transitive(a.drop_first(), b.drop_first(), c.drop_first());
        } else if a[0] != b[0] && b[0] != c[0] {
            crate::text::lemma_chars_lt_transitive(a[0], b[0], c[0]);
            crate::text::lemma_chars_lt_irreflexive(a[0]);
        }
    }
}

proof fn lemma_components_lt_total(a: Seq<Seq<char>>, b: Seq<Seq<char>>)
    requires
        a != b,
    ensures
        components_lt(a, b) || components_lt(b, a),
    decreases a.len(),
{
    if a.len() > 0 && b.len() > 0 {
        if a[0] == b[0] {
            if a.drop_first() == b.drop_first() {
                assert(a == seq![a[0]] + a.drop_first());
                assert(b == seq![b[0]] + b.drop_first());
            }
            lemma_components_lt_total(a.drop_first(), b.drop_first());
        } else {
            crate::text::lemma_chars_lt_total(a[0], b[0]);
        }
    } else if a.len() == 0 && b.len() == 0 {
        assert(a == b);
    }
}

/// Not being before another path is transitive.
pub proof fn lemma_path_le_transitive(a: Seq<char>, b: Seq<char>, c: Seq<char>)
    requires
        !path_lt(b, a),
        !path_lt(c, b),
    ensures
        !path_lt(c, a),
{
    let (x, y, z) = (components(a), components(b), components(c));
    if components_lt(z, x) {
        if y == z {
        } else {
            lemma_components_lt_total(y, z);
            lemma_components_lt_transitive(y, z, x);
        }
    }
}

} // verus!

verus! {

/// The last named piece of a list is one of its pieces.
pub proof fn lemma_last_named_piece_member(ps: Seq<Seq<char>>)
    ensures
        last_named_piece(ps) matches Some(p) ==> exists|i: int| 0 <= i < ps.len() && ps[i] == p,
    decreases ps.len(),
{
    if ps.len() > 0 && !is_named_piece(ps.last()) {
        lemma_last_named_piece_member(ps.drop_last());
        if last_named_piece(ps.drop_last()) is Some {
            let p = last_named_piece(ps.drop_last())->0;
            let i = choose|i: int| 0 <= i < ps.drop_last().len() && ps.drop_last()[i] == p;
            assert(ps[i] == p);
        }
    } else if ps.len() > 0 {
        assert(ps[ps.len() - 1] == ps.last());
    }
}

/// A file name holds no `/`.
pub proof fn lemma_file_name_has_no_slash(path: Seq<char>)
    ensures
        file_name_spec(path) matches Some(n) ==> forall|j: int| 0 <= j < n.len() ==> n[j] != '/',
{
    let ps = split_spec(path, '/');
    lemma_last_named_piece_member(ps);
    crate::text::lemma_split_pieces_exclude(path, '/');
    if file_name_spec(path) is Some {
        let n = file_name_spec(path)->0;
        let i = choose|i: int| 0 <= i < ps.len() && ps[i] == n;
        assert forall|j: int| 0 <= j < n.len() implies n[j] != '/' by {
            assert(ps[i][j] == n[j]);
        }
    }
}

} // verus!
