//! Character-level text operations, stated over `Seq<char>`.
use vstd::prelude::*;

verus! {

/// `char::is_whitespace`: the characters with the Unicode `White_Space` property.
pub open spec fn is_ws(c: char) -> bool {
    ||| ('\u{9}' <= c && c <= '\u{d}')
    ||| c == ' '
    ||| c == '\u{85}'
    ||| c == '\u{a0}'
    ||| c == '\u{1680}'
    ||| ('\u{2000}' <= c && c <= '\u{200a}')
    ||| c == '\u{2028}'
    ||| c == '\u{2029}'
    ||| c == '\u{202f}'
    ||| c == '\u{205f}'
    ||| c == '\u{3000}'
}

/// Whether `c` is white space, as `char::is_whitespace` decides it.
pub fn is_whitespace(c: char) -> (b: bool)
    ensures
        b == is_ws(c),
{
    ('\u{9}' <= c && c <= '\u{d}') || c == ' ' || c == '\u{85}' || c == '\u{a0}' || c == '\u{1680}'
        || ('\u{2000}' <= c && c <= '\u{200a}') || c == '\u{2028}' || c == '\u{2029}' || c
        == '\u{202f}' || c == '\u{205f}' || c == '\u{3000}'
}

/// The characters of `s`, in order.
pub fn chars_of(s: &str) -> (v: Vec<char>)
    ensures
        v@ == s@,
{
    let mut v: Vec<char> = Vec::new();
    for c in it: s.chars()
        invariant
            v@ == it.seq().take(it.index() as int),
    {
        v.push(c);
    }
    v
}

} // verus!

verus! {

/// Builds a `String` from a sequence of characters.
#[verifier::external_body]
pub(crate) fn string_from_chars(v: &Vec<char>) -> (s: String)
    ensures
        s@ == v@,
{
    v.iter().collect()
}

/// Appends the characters of `s` to `out`.
pub fn push_str(out: &mut Vec<char>, s: &str)
    ensures
        final(out)@ == old(out)@ + s@,
{
    let cs = chars_of(s);
    push_all(out, &cs);
}

/// Appends every element of `v` to `out`.
pub fn push_all(out: &mut Vec<char>, v: &Vec<char>)
    ensures
        final(out)@ == old(out)@ + v@,
{
    let ghost start = out@;
    let n = v.len();
    let mut i: usize = 0;
    while i < n
        invariant
            n == v@.len(),
            i <= n,
            out@ == start + v@.take(i as int),
        decreases n - i,
    {
        out.push(v[i]);
        i = i + 1;
        assert(v@.take(i as int) == v@.take(i - 1).push(v@[i - 1]));
    }
    assert(v@.take(n as int) == v@);
}

/// A copy of `v[from..to]`.
pub fn copy_range(v: &Vec<char>, from: usize, to: usize) -> (r: Vec<char>)
    requires
        from <= to <= v@.len(),
    ensures
        r@ == v@.subrange(from as int, to as int),
{
    let mut r: Vec<char> = Vec::new();
    let mut i: usize = from;
    while i < to
        invariant
            from <= i <= to <= v@.len(),
            r@ == v@.subrange(from as int, i as int),
        decreases to - i,
    {
        r.push(v[i]);
        i = i + 1;
        assert(r@ == v@.subrange(from as int, i as int));
    }
    r
}

/// The number of white-space characters that begin `s`.
pub open spec fn leading_ws(s: Seq<char>) -> nat
    decreases s.len(),
{
    if s.len() > 0 && is_ws(s[0]) {
        1 + leading_ws(s.drop_first())
    } else {
        0
    }
}

/// The number of white-space characters that end `s`.
pub open spec fn trailing_ws(s: Seq<char>) -> nat
    decreases s.len(),
{
    if s.len() > 0 && is_ws(s.last()) {
        1 + trailing_ws(s.drop_last())
    } else {
        0
    }
}

/// `str::trim_start`: `s` without its leading white space.
pub open spec fn trim_start_spec(s: Seq<char>) -> Seq<char> {
    s.skip(leading_ws(s) as int)
}

/// `str::trim_end`: `s` without its trailing white space.
pub open spec fn trim_end_spec(s: Seq<char>) -> Seq<char> {
    s.take(s.len() - trailing_ws(s))
}

/// `str::trim`: `s` without leading and trailing white space.
pub open spec fn trim_spec(s: Seq<char>) -> Seq<char> {
    trim_end_spec(trim_start_spec(s))
}

/// The index of the first character of `s` that is not white space.
pub fn leading_ws_count(s: &Vec<char>) -> (k: usize)
    ensures
        k == leading_ws(s@),
        k <= s@.len(),
{
    let n = s.len();
    let mut i: usize = 0;
    assert(s@.skip(0) == s@);
    while i < n && is_whitespace(s[i])
        invariant
            i <= n == s@.len(),
            leading_ws(s@) == i + leading_ws(s@.skip(i as int)),
        decreases n - i,
    {
        assert(s@.skip(i as int).drop_first() == s@.skip(i + 1));
        i = i + 1;
    }
    proof {
        if i < n {
            assert(s@.skip(i as int)[0] == s@[i as int]);
        }
    }
    i
}

/// The number of white-space characters that end `s`.
pub fn trailing_ws_count(s: &Vec<char>) -> (k: usize)
    ensures
        k == trailing_ws(s@),
        k <= s@.len(),
{
    let n = s.len();
    let mut i: usize = n;
    assert(s@.take(n as int) == s@);
    while i > 0 && is_whitespace(s[i - 1])
        invariant
            i <= n == s@.len(),
            trailing_ws(s@) == (n - i) + trailing_ws(s@.take(i as int)),
        decreases i,
    {
        assert(s@.take(i as int).drop_last() == s@.take(i - 1));
        assert(s@.take(i as int).last() == s@[i - 1]);
        i = i - 1;
    }
    proof {
        if i > 0 {
            assert(s@.take(i as int).last() == s@[i - 1]);
        }
    }
    n - i
}

/// `s` without its leading white space.
pub fn trim_start(s: &Vec<char>) -> (r: Vec<char>)
    ensures
        r@ == trim_start_spec(s@),
{
    let k = leading_ws_count(s);
    copy_range(s, k, s.len())
}

/// `s` without leading and trailing white space.
pub fn trim(s: &Vec<char>) -> (r: Vec<char>)
    ensures
        r@ == trim_spec(s@),
{
    let t = trim_start(s);
    let k = trailing_ws_count(&t);
    copy_range(&t, 0, t.len() - k)
}

} // verus!

verus! {

/// `p` occurs in `s` starting at index `i`.
pub open spec fn occurs_at(s: Seq<char>, p: Seq<char>, i: int) -> bool {
    0 <= i && i + p.len() <= s.len() && s.subrange(i, i + p.len()) == p
}

/// The first index at which `p` occurs in `s`, where it occurs.
pub open spec fn first_occurrence(s: Seq<char>, p: Seq<char>) -> int {
    choose|i: int| occurs_at(s, p, i) && forall|j: int| 0 <= j < i ==> !occurs_at(s, p, j)
}

/// The first occurrence is the only index with no occurrence before it.
pub proof fn lemma_first_occurrence(s: Seq<char>, p: Seq<char>, i: int)
    requires
        occurs_at(s, p, i),
        forall|j: int| 0 <= j < i ==> !occurs_at(s, p, j),
    ensures
        first_occurrence(s, p) == i,
{
    let k = first_occurrence(s, p);
    assert(occurs_at(s, p, k) && forall|j: int| 0 <= j < k ==> !occurs_at(s, p, j));
    if k < i {
        assert(!occurs_at(s, p, k));
    }
    if i < k {
        assert(!occurs_at(s, p, i));
    }
}

/// `str::contains` with a string pattern.
pub open spec fn contains_spec(s: Seq<char>, p: Seq<char>) -> bool {
    exists|i: int| occurs_at(s, p, i)
}

/// Whether `s` ends with `p`.
pub open spec fn ends_with_spec(s: Seq<char>, p: Seq<char>) -> bool {
    p.len() <= s.len() && s.skip(s.len() - p.len()) == p
}

/// `str::starts_with` with a string pattern.
pub open spec fn starts_with_spec(s: Seq<char>, p: Seq<char>) -> bool {
    p.len() <= s.len() && s.take(p.len() as int) == p
}

/// Whether `p` occurs in `s` at index `i`.
pub fn matches_at(s: &Vec<char>, p: &Vec<char>, i: usize) -> (b: bool)
    ensures
        b == occurs_at(s@, p@, i as int),
{
    if i > s.len() || p.len() > s.len() - i {
        return false;
    }
    let m = p.len();
    let mut j: usize = 0;
    while j < m
        invariant
            m == p@.len(),
            i + m <= s@.len(),
            s@.len() == s.len(),
            j <= m,
            forall|k: int| 0 <= k < j ==> s@[i + k] == p@[k],
        decreases m - j,
    {
        if s[i + j] != p[j] {
            assert(s@.subrange(i as int, i + m)[j as int] != p@[j as int]);
            return false;
        }
        j = j + 1;
    }
    assert(s@.subrange(i as int, i + m) == p@);
    true
}

/// `str::find` with a string pattern: the first index at which `p` occurs in `s`.
pub fn find(s: &Vec<char>, p: &Vec<char>) -> (r: Option<usize>)
    ensures
        match r {
            Some(i) => occurs_at(s@, p@, i as int) && (forall|j: int|
                0 <= j < i ==> !occurs_at(s@, p@, j)) && i == first_occurrence(s@, p@),
            None => !contains_spec(s@, p@),
        },
{
    if p.len() > s.len() {
        return None;
    }
    let last = s.len() - p.len();
    let mut i: usize = 0;
    while i <= last
        invariant
            last == s@.len() - p@.len(),
            i <= last + 1,
            forall|j: int| 0 <= j < i ==> !occurs_at(s@, p@, j),
        decreases last + 1 - i,
    {
        if matches_at(s, p, i) {
            proof {
                lemma_first_occurrence(s@, p@, i as int);
            }
            return Some(i);
        }
        if i == last {
            return None;
        }
        i = i + 1;
    }
    None
}

/// `str::contains` with a string pattern.
pub fn contains(s: &Vec<char>, p: &Vec<char>) -> (b: bool)
    ensures
        b == contains_spec(s@, p@),
{
    match find(s, p) {
        Some(_) => true,
        None => false,
    }
}

/// `str::starts_with` with a string pattern.
pub fn starts_with(s: &Vec<char>, p: &Vec<char>) -> (b: bool)
    ensures
        b == starts_with_spec(s@, p@),
{
    let b = matches_at(s, p, 0);
    proof {
        if b {
            assert(s@.take(p@.len() as int) == s@.subrange(0, p@.len() as int));
        }
        if starts_with_spec(s@, p@) {
            assert(s@.take(p@.len() as int) == s@.subrange(0, p@.len() as int));
        }
    }
    b
}

/// The pieces of `s` between occurrences of `sep`, as `str::split` with a `char` gives them.
pub open spec fn split_spec(s: Seq<char>, sep: char) -> Seq<Seq<char>>
    decreases s.len(),
{
    if s.len() == 0 {
        seq![Seq::empty()]
    } else {
        let r = split_spec(s.drop_last(), sep);
        if s.last() == sep {
            r.push(Seq::empty())
        } else {
            r.update(r.len() - 1, r.last().push(s.last()))
        }
    }
}

/// The pieces of `pieces` joined by `sep`, as `[String]::join` gives them.
pub open spec fn join_spec(pieces: Seq<Seq<char>>, sep: Seq<char>) -> Seq<char>
    decreases pieces.len(),
{
    if pieces.len() == 0 {
        Seq::empty()
    } else if pieces.len() == 1 {
        pieces[0]
    } else {
        join_spec(pieces.drop_last(), sep) + sep + pieces.last()
    }
}

/// A text contains whatever stands in the middle of it.
pub proof fn lemma_contains_middle(a: Seq<char>, m: Seq<char>, b: Seq<char>)
    ensures
        contains_spec(a + m + b, m),
        occurs_at(a + m + b, m, a.len() as int),
{
    assert((a + m + b).subrange(a.len() as int, (a.len() + m.len()) as int) =~= m);
    assert(occurs_at(a + m + b, m, a.len() as int));
}

/// What contains a text contains all that the text contains.
pub proof fn lemma_contains_within(a: Seq<char>, m: Seq<char>, b: Seq<char>, p: Seq<char>)
    requires
        contains_spec(m, p),
    ensures
        contains_spec(a + m + b, p),
{
    let i = choose|i: int| occurs_at(m, p, i);
    let t = a + m + b;
    assert(t.subrange(a.len() + i, a.len() + i + p.len()) =~= m.subrange(i, i + p.len()));
    assert(occurs_at(t, p, a.len() + i));
}

/// A text contains whatever a text it contains contains.
pub proof fn lemma_contains_transitive(s: Seq<char>, m: Seq<char>, p: Seq<char>)
    requires
        contains_spec(s, m),
        contains_spec(m, p),
    ensures
        contains_spec(s, p),
{
    let k = choose|k: int| #[trigger] occurs_at(s, m, k);
    assert(s =~= s.take(k) + m + s.skip(k + m.len())) by {
        assert(s.subrange(k, k + m.len()) == m);
    }
    lemma_contains_within(s.take(k), m, s.skip(k + m.len()), p);
}

/// A joined text contains each of its pieces.
pub proof fn lemma_join_contains_piece(pieces: Seq<Seq<char>>, sep: Seq<char>, i: int)
    requires
        0 <= i < pieces.len(),
    ensures
        contains_spec(join_spec(pieces, sep), pieces[i]),
    decreases pieces.len(),
{
    if pieces.len() == 1 {
        lemma_contains_middle(Seq::empty(), pieces[0], Seq::empty());
        assert(Seq::<char>::empty() + pieces[0] + Seq::<char>::empty() =~= pieces[0]);
    } else {
        let front = join_spec(pieces.drop_last(), sep);
        if i == pieces.len() - 1 {
            lemma_contains_middle(front + sep, pieces.last(), Seq::empty());
            assert(front + sep + pieces.last() + Seq::<char>::empty() =~= front + sep + pieces.last());
        } else {
            lemma_join_contains_piece(pieces.drop_last(), sep, i);
            lemma_contains_within(Seq::empty(), front, sep + pieces.last(), pieces[i]);
            assert(Seq::<char>::empty() + front + (sep + pieces.last()) =~= front + sep
                + pieces.last());
        }
    }
}

proof fn lemma_split_nonempty(s: Seq<char>, sep: char)
    ensures
        split_spec(s, sep).len() >= 1,
    decreases s.len(),
{
    if s.len() > 0 {
        lemma_split_nonempty(s.drop_last(), sep);
    }
}

/// The views of a vector of strings.
pub open spec fn views(v: Seq<String>) -> Seq<Seq<char>> {
    v.map_values(|x: String| x@)
}

/// `s.split(sep).map(String::from).collect()`.
pub fn split_char(s: &Vec<char>, sep: char) -> (r: Vec<String>)
    ensures
        views(r@) == split_spec(s@, sep),
{
    let mut done: Vec<String> = Vec::new();
    let mut cur: Vec<char> = Vec::new();
    let n = s.len();
    let mut i: usize = 0;
    while i < n
        invariant
            n == s@.len(),
            i <= n,
            views(done@).push(cur@) == split_spec(s@.take(i as int), sep),
        decreases n - i,
    {
        let ghost before = s@.take(i as int);
        assert(s@.take(i + 1).drop_last() == before);
        assert(s@.take(i + 1).last() == s@[i as int]);
        proof {
            lemma_split_nonempty(before, sep);
        }
        if s[i] == sep {
            let piece = string_from_chars(&cur);
            done.push(piece);
            cur = Vec::new();
            assert(views(done@) == views(done@).drop_last().push(piece@));
        } else {
            cur.push(s[i]);
        }
        i = i + 1;
        assert(views(done@).push(cur@) == split_spec(s@.take(i as int), sep));
    }
    let last = string_from_chars(&cur);
    done.push(last);
    assert(s@.take(n as int) == s@);
    assert(views(done@) == views(done@).drop_last().push(last@));
    done
}

/// The elements of `pieces` joined by `sep`.
pub fn join(pieces: &Vec<String>, sep: &str) -> (r: Vec<char>)
    ensures
        r@ == join_spec(views(pieces@), sep@),
{
    let mut out: Vec<char> = Vec::new();
    let n = pieces.len();
    let mut i: usize = 0;
    while i < n
        invariant
            n == pieces@.len(),
            i <= n,
            out@ == join_spec(views(pieces@).take(i as int), sep@),
        decreases n - i,
    {
        assert(views(pieces@).take(i + 1).drop_last() == views(pieces@).take(i as int));
        if i > 0 {
            push_str(&mut out, sep);
        }
        push_str(&mut out, pieces[i].as_str());
        i = i + 1;
    }
    assert(views(pieces@).take(n as int) == views(pieces@));
    out
}

/// The decimal digit for `d < 10`.
pub open spec fn digit_char(d: nat) -> char {
    if d == 0 { '0' }
    else if d == 1 { '1' }
    else if d == 2 { '2' }
    else if d == 3 { '3' }
    else if d == 4 { '4' }
    else if d == 5 { '5' }
    else if d == 6 { '6' }
    else if d == 7 { '7' }
    else if d == 8 { '8' }
    else { '9' }
}

/// The decimal rendering of `n`, as `Display` for unsigned integers writes it.
pub open spec fn decimal(n: nat) -> Seq<char>
    decreases n,
{
    if n < 10 {
        seq![digit_char(n)]
    } else {
        decimal(n / 10).push(digit_char(n % 10))
    }
}

fn digit(d: u64) -> (c: char)
    requires
        d < 10,
    ensures
        c == digit_char(d as nat),
{
    if d == 0 { '0' }
    else if d == 1 { '1' }
    else if d == 2 { '2' }
    else if d == 3 { '3' }
    else if d == 4 { '4' }
    else if d == 5 { '5' }
    else if d == 6 { '6' }
    else if d == 7 { '7' }
    else if d == 8 { '8' }
    else { '9' }
}

/// Appends the decimal rendering of `n` to `out`.
pub fn push_decimal(out: &mut Vec<char>, n: u64)
    ensures
        final(out)@ == old(out)@ + decimal(n as nat),
    decreases n,
{
    if n >= 10 {
        push_decimal(out, n / 10);
    }
    out.push(digit(n % 10));
}

/// The name for `str::to_lowercase`, the Unicode lower-case mapping of a string.
pub uninterp spec fn spec_lowercase(s: Seq<char>) -> Seq<char>;

/// Calls `str::to_lowercase`. Its result is named by `spec_lowercase`; what the
/// Unicode case mapping gives for each character is left unsaid.
#[verifier::external_body]
pub(crate) fn to_lowercase(s: &str) -> (r: String)
    ensures
        r@ == spec_lowercase(s@),
{
    s.to_lowercase()
}

/// `s` with every occurrence of `c` removed.
pub open spec fn remove_char_spec(s: Seq<char>, c: char) -> Seq<char> {
    s.filter(|x: char| x != c)
}

/// `s.replace(c, "")`.
pub fn remove_char(s: &Vec<char>, c: char) -> (r: Vec<char>)
    ensures
        r@ == remove_char_spec(s@, c),
{
    let mut r: Vec<char> = Vec::new();
    let n = s.len();
    let mut i: usize = 0;
    while i < n
        invariant
            n == s@.len(),
            i <= n,
            r@ == remove_char_spec(s@.take(i as int), c),
        decreases n - i,
    {
        assert(s@.take(i + 1).drop_last() == s@.take(i as int));
        reveal_with_fuel(Seq::filter, 1);
        if s[i] != c {
            r.push(s[i]);
        }
        i = i + 1;
    }
    assert(s@.take(n as int) == s@);
    r
}

} // verus!

verus! {

/// The order of `str`: lexicographic over characters, a proper prefix first.
pub open spec fn chars_lt(a: Seq<char>, b: Seq<char>) -> bool
    decreases a.len(),
{
    if a.len() == 0 {
        b.len() > 0
    } else if b.len() == 0 {
        false
    } else if a[0] != b[0] {
        a[0] < b[0]
    } else {
        chars_lt(a.drop_first(), b.drop_first())
    }
}

/// No two texts are each before the other.
pub proof fn lemma_chars_lt_asymmetric(a: Seq<char>, b: Seq<char>)
    ensures
        chars_lt(a, b) ==> !chars_lt(b, a),
    decreases a.len(),
{
    if a.len() > 0 && b.len() > 0 && a[0] == b[0] {
        lemma_chars_lt_asymmetric(a.drop_first(), b.drop_first());
    }
}

/// No text is before itself.
pub proof fn lemma_chars_lt_irreflexive(a: Seq<char>)
    ensures
        !chars_lt(a, a),
    decreases a.len(),
{
    if a.len() > 0 {
        lemma_chars_lt_irreflexive(a.drop_first());
    }
}

/// Whether `a` comes before `b` in the order of `str`.
pub fn chars_less(a: &Vec<char>, b: &Vec<char>) -> (r: bool)
    ensures
        r == chars_lt(a@, b@),
{
    let mut i: usize = 0;
    assert(a@.skip(0) == a@ && b@.skip(0) == b@);
    loop
        invariant
            i <= a@.len(),
            i <= b@.len(),
            chars_lt(a@, b@) == chars_lt(a@.skip(i as int), b@.skip(i as int)),
        decreases a@.len() - i,
    {
        if i == a.len() {
            return i < b.len();
        }
        if i == b.len() {
            return false;
        }
        assert(a@.skip(i as int)[0] == a@[i as int] && b@.skip(i as int)[0] == b@[i as int]);
        if a[i] != b[i] {
            return a[i] < b[i];
        }
        assert(a@.skip(i as int).drop_first() == a@.skip(i + 1));
        assert(b@.skip(i as int).drop_first() == b@.skip(i + 1));
        i = i + 1;
    }
}

} // verus!

verus! {

/// Of two different texts, one is before the other.
pub proof fn lemma_chars_lt_total(a: Seq<char>, b: Seq<char>)
    requires
        a != b,
    ensures
        chars_lt(a, b) || chars_lt(b, a),
    decreases a.len(),
{
    if a.len() > 0 && b.len() > 0 && a[0] == b[0] {
        if a.drop_first() == b.drop_first() {
            assert(a == seq![a[0]] + a.drop_first());
            assert(b == seq![b[0]] + b.drop_first());
        }
        lemma_chars_lt_total(a.drop_first(), b.drop_first());
    } else if a.len() == 0 && b.len() == 0 {
        assert(a == b);
    }
}

} // verus!

verus! {

proof fn lemma_join_extend_last(r: Seq<Seq<char>>, sep: Seq<char>, x: char)
    requires
        r.len() >= 1,
    ensures
        join_spec(r.update(r.len() - 1, r.last().push(x)), sep) == join_spec(r, sep).push(x),
{
    let u = r.update(r.len() - 1, r.last().push(x));
    if r.len() == 1 {
        assert(u[0] == r[0].push(x));
    } else {
        assert(u.drop_last() == r.drop_last());
        assert(u.last() == r.last().push(x));
        assert(join_spec(u, sep) == join_spec(r.drop_last(), sep) + sep + r.last().push(x));
        assert((join_spec(r.drop_last(), sep) + sep + r.last()).push(x) == join_spec(r.drop_last(), sep)
            + sep + r.last().push(x));
    }
}

/// Splitting a text at a character and joining the pieces with that character
/// gives the text back.
pub proof fn lemma_join_split(s: Seq<char>, c: char)
    ensures
        join_spec(split_spec(s, c), seq![c]) == s,
    decreases s.len(),
{
    if s.len() == 0 {
        assert(split_spec(s, c) == seq![Seq::<char>::empty()]);
        assert(join_spec(seq![Seq::<char>::empty()], seq![c]) == Seq::<char>::empty());
        assert(s == Seq::<char>::empty());
    } else {
        let t = s.drop_last();
        let r = split_spec(t, c);
        lemma_join_split(t, c);
        lemma_split_nonempty(t, c);
        if s.last() == c {
            let u = r.push(Seq::<char>::empty());
            assert(u.drop_last() == r);
            assert(join_spec(u, seq![c]) == join_spec(r, seq![c]) + seq![c] + Seq::<char>::empty());
            assert(s == t.push(c));
        } else {
            lemma_join_extend_last(r, seq![c], s.last());
            assert(s == t.push(s.last()));
        }
    }
}

/// No piece of a text split at a character holds that character.
pub proof fn lemma_split_pieces_exclude(s: Seq<char>, c: char)
    ensures
        forall|i: int, j: int|
            0 <= i < split_spec(s, c).len() && 0 <= j < split_spec(s, c)[i].len() ==> #[trigger] split_spec(
                s,
                c,
            )[i][j] != c,
    decreases s.len(),
{
    if s.len() > 0 {
        let t = s.drop_last();
        lemma_split_pieces_exclude(t, c);
        lemma_split_nonempty(t, c);
        let r = split_spec(t, c);
        if s.last() != c {
            let u = r.update(r.len() - 1, r.last().push(s.last()));
            assert forall|i: int, j: int| 0 <= i < u.len() && 0 <= j < u[i].len() implies u[i][j]
                != c by {
                if i == r.len() - 1 {
                    if j < r.last().len() {
                        assert(u[i][j] == r[i][j]);
                    }
                } else {
                    assert(u[i] == r[i]);
                }
            }
        } else {
            let u = r.push(Seq::<char>::empty());
            assert forall|i: int, j: int| 0 <= i < u.len() && 0 <= j < u[i].len() implies u[i][j]
                != c by {
                if i < r.len() {
                    assert(u[i] == r[i]);
                }
            }
        }
    }
}

} // verus!

verus! {

/// Every number has at least one digit, and those from ten on at least two.
pub proof fn lemma_decimal_len(n: nat)
    ensures
        decimal(n).len() >= 1,
        n >= 10 ==> decimal(n).len() >= 2,
    decreases n,
{
    if n >= 10 {
        lemma_decimal_len(n / 10);
    }
}

/// Different numbers are written differently.
pub proof fn lemma_decimal_injective(a: nat, b: nat)
    requires
        decimal(a) == decimal(b),
    ensures
        a == b,
    decreases a,
{
    lemma_decimal_len(a);
    lemma_decimal_len(b);
    if a < 10 && b < 10 {
        assert(decimal(a)[0] == digit_char(a));
        assert(decimal(b)[0] == digit_char(b));
    } else if a >= 10 && b >= 10 {
        assert(decimal(a).last() == digit_char(a % 10));
        assert(decimal(b).last() == digit_char(b % 10));
        assert(decimal(a).drop_last() == decimal(a / 10));
        assert(decimal(b).drop_last() == decimal(b / 10));
        lemma_decimal_injective(a / 10, b / 10);
    }
}

} // verus!

verus! {

/// The order of texts is transitive.
pub proof fn lemma_chars_lt_transitive(a: Seq<char>, b: Seq<char>, c: Seq<char>)
    requires
        chars_lt(a, b),
        chars_lt(b, c),
    ensures
        chars_lt(a, c),
    decreases a.len(),
{
    if a.len() > 0 && b.len() > 0 && c.len() > 0 && a[0] == b[0] && b[0] == c[0] {
        lemma_chars_lt_transitive(a.drop_first(), b.drop_first(), c.drop_first());
    }
}

/// Not being before is transitive.
pub proof fn lemma_chars_le_transitive(a: Seq<char>, b: Seq<char>, c: Seq<char>)
    requires
        !chars_lt(b, a),
        !chars_lt(c, b),
    ensures
        !chars_lt(c, a),
{
    if chars_lt(c, a) {
        if b == c {
        } else {
            lemma_chars_lt_total(b, c);
            lemma_chars_lt_transitive(b, c, a);
        }
    }
}

} // verus!
