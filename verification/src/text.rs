//! Character-level text primitives shared by the filter builders and log scanners.
use vstd::prelude::*;

verus! {

/// Whether `c` carries the Unicode `White_Space` property (what `char::is_whitespace` reports).
pub uninterp spec fn unicode_white_space(c: char) -> bool;

/// `char::is_whitespace`: its documentation says it returns true exactly for characters with
/// the Unicode `White_Space` property, and its examples show a space, a line feed and a
/// no-break space as white space and '越' as not. The property's full list of code points is
/// not in that documentation, so it is named here, not spelled out.
#[verifier::external_body]
pub(crate) fn is_white_space(c: char) -> (b: bool)
    ensures
        b == unicode_white_space(c),
        c == ' ' || c == '\n' || c == '\u{A0}' ==> b,
        c == '越' ==> !b,
{
    c.is_whitespace()
}

/// `part` occurs somewhere in `s`.
pub open spec fn has_part(s: Seq<char>, part: Seq<char>) -> bool {
    exists|p: Seq<char>, q: Seq<char>| #![trigger p + part + q] s == p + part + q
}

/// Both halves of `a + b` occur in it.
pub proof fn lemma_halves_are_parts(a: Seq<char>, b: Seq<char>)
    ensures
        has_part(a + b, a),
        has_part(a + b, b),
{
    assert(a + b =~= Seq::<char>::empty() + a + b);
    assert(a + b =~= a + b + Seq::<char>::empty());
}

/// What occurs in a part of `s` occurs in `s`.
pub proof fn lemma_part_of_part(s: Seq<char>, mid: Seq<char>, part: Seq<char>)
    requires
        has_part(s, mid),
        has_part(mid, part),
    ensures
        has_part(s, part),
{
    let (p, q) = choose|p: Seq<char>, q: Seq<char>| s == p + mid + q;
    let (p2, q2) = choose|p: Seq<char>, q: Seq<char>| mid == p + part + q;
    assert(s =~= (p + p2) + part + (q2 + q));
}

/// `String::push`: appends one character at the end of the string.
#[verifier::external_body]
pub(crate) fn push_char(s: &mut String, c: char)
    ensures
        final(s)@ == old(s)@.push(c),
{
    s.push(c)
}

/// The characters of `s`, in order.
pub fn chars_of(s: &str) -> (v: Vec<char>)
    ensures
        v@ == s@,
{
    let mut v: Vec<char> = Vec::new();
    for c in it: s.chars()
        invariant
            it.seq() == s@,
            v@ == it.seq().take(it.index()),
    {
        v.push(c);
    }
    v
}

/// A string made of `v[lo..hi]`.
pub fn string_of(v: &Vec<char>, lo: usize, hi: usize) -> (s: String)
    requires
        lo <= hi <= v.len(),
    ensures
        s@ == v@.subrange(lo as int, hi as int),
{
    let mut s = String::new();
    let mut i = lo;
    while i < hi
        invariant
            lo <= i <= hi <= v.len(),
            s@ == v@.subrange(lo as int, i as int),
        decreases hi - i,
    {
        push_char(&mut s, v[i]);
        i = i + 1;
    }
    s
}


/// `s` without its leading Unicode white space.
pub open spec fn trim_front(s: Seq<char>) -> Seq<char>
    decreases s.len(),
{
    if s.len() > 0 && unicode_white_space(s[0]) {
        trim_front(s.drop_first())
    } else {
        s
    }
}

/// `s` without its trailing Unicode white space.
pub open spec fn trim_back(s: Seq<char>) -> Seq<char>
    decreases s.len(),
{
    if s.len() > 0 && unicode_white_space(s.last()) {
        trim_back(s.drop_last())
    } else {
        s
    }
}

/// What `trim_front` leaves starts with a character that is not white space.
pub proof fn lemma_trim_front_start(s: Seq<char>)
    ensures
        trim_front(s).len() == 0 || !unicode_white_space(trim_front(s)[0]),
        trim_front(s).len() <= s.len(),
    decreases s.len(),
{
    if s.len() > 0 && unicode_white_space(s[0]) {
        lemma_trim_front_start(s.drop_first());
    }
}

/// What `trim_back` leaves is a prefix of `s` that ends with a character that is not white space.
pub proof fn lemma_trim_back_prefix(s: Seq<char>)
    ensures
        trim_back(s) == s.take(trim_back(s).len() as int),
        trim_back(s).len() <= s.len(),
        trim_back(s).len() == 0 || !unicode_white_space(trim_back(s).last()),
    decreases s.len(),
{
    if s.len() > 0 && unicode_white_space(s.last()) {
        lemma_trim_back_prefix(s.drop_last());
        let t = trim_back(s.drop_last());
        assert(s.drop_last().take(t.len() as int) =~= s.take(t.len() as int));
    } else {
        assert(s.take(s.len() as int) =~= s);
    }
}

/// Trimming twice is trimming once.
pub proof fn lemma_trimmed_idempotent(s: Seq<char>)
    ensures
        trimmed(trimmed(s)) == trimmed(s),
{
    let u = trim_front(s);
    let t = trim_back(u);
    lemma_trim_front_start(s);
    lemma_trim_back_prefix(u);
    if t.len() > 0 {
        assert(t[0] == u[0]);
    }
    assert(trim_front(t) == t);
}

/// `s` without leading and trailing Unicode white space (what `str::trim` returns).
pub open spec fn trimmed(s: Seq<char>) -> Seq<char> {
    trim_back(trim_front(s))
}

/// The bounds `(a, b)` with `v[a..b] == trimmed(v[lo..hi])`.
pub fn trim_bounds(v: &Vec<char>, lo: usize, hi: usize) -> (r: (usize, usize))
    requires
        lo <= hi <= v.len(),
    ensures
        lo <= r.0 <= r.1 <= hi,
        v@.subrange(r.0 as int, r.1 as int) == trimmed(v@.subrange(lo as int, hi as int)),
        v@.subrange(r.0 as int, hi as int) == trim_front(v@.subrange(lo as int, hi as int)),
{
    let ghost s = v@.subrange(lo as int, hi as int);
    let mut a = lo;
    while a < hi && is_white_space(v[a])
        invariant
            lo <= a <= hi <= v.len(),
            s == v@.subrange(lo as int, hi as int),
            trim_front(v@.subrange(a as int, hi as int)) == trim_front(s),
        decreases hi - a,
    {
        assert(v@.subrange(a as int, hi as int).drop_first() =~= v@.subrange(a + 1, hi as int));
        a = a + 1;
    }
    let ghost front = v@.subrange(a as int, hi as int);
    assert(trim_front(front) == front);
    let mut b = hi;
    while b > a && is_white_space(v[b - 1])
        invariant
            lo <= a <= b <= hi <= v.len(),
            front == v@.subrange(a as int, hi as int),
            trim_back(v@.subrange(a as int, b as int)) == trim_back(front),
        decreases b - a,
    {
        assert(v@.subrange(a as int, b as int).drop_last() =~= v@.subrange(a as int, b - 1));
        b = b - 1;
    }
    (a, b)
}

/// `s` up to (not including) its first Unicode white space character.
pub open spec fn take_word(s: Seq<char>) -> Seq<char>
    decreases s.len(),
{
    if s.len() == 0 || unicode_white_space(s[0]) {
        Seq::empty()
    } else {
        seq![s[0]] + take_word(s.drop_first())
    }
}

/// The first white-space separated word of `s` (what `s.split_whitespace().next()` yields).
pub open spec fn first_word(s: Seq<char>) -> Option<Seq<char>> {
    let t = trim_front(s);
    if t.len() == 0 {
        None
    } else {
        Some(take_word(t))
    }
}

/// The bounds of the first word of `v[lo..hi]`, if it has one.
pub fn first_word_bounds(v: &Vec<char>, lo: usize, hi: usize) -> (r: Option<(usize, usize)>)
    requires
        lo <= hi <= v.len(),
    ensures
        match r {
            Some((a, b)) => lo <= a <= b <= hi && first_word(v@.subrange(lo as int, hi as int))
                == Some(v@.subrange(a as int, b as int)),
            None => first_word(v@.subrange(lo as int, hi as int)) is None,
        },
{
    let (a, _) = trim_bounds(v, lo, hi);
    if a == hi {
        return None;
    }
    let ghost t = v@.subrange(a as int, hi as int);
    let mut b = a;
    while b < hi && !is_white_space(v[b])
        invariant
            lo <= a <= b <= hi <= v.len(),
            t == v@.subrange(a as int, hi as int),
            take_word(t) == v@.subrange(a as int, b as int) + take_word(v@.subrange(b as int, hi as int)),
        decreases hi - b,
    {
        let ghost rest = v@.subrange(b as int, hi as int);
        assert(rest.drop_first() =~= v@.subrange(b + 1, hi as int));
        assert(v@.subrange(a as int, b as int) + seq![v@[b as int]] =~= v@.subrange(a as int, b + 1));
        assert(take_word(rest) == seq![rest[0]] + take_word(rest.drop_first()));
        b = b + 1;
    }
    assert(take_word(v@.subrange(b as int, hi as int)) =~= Seq::<char>::empty());
    assert(take_word(t) =~= v@.subrange(a as int, b as int));
    Some((a, b))
}


/// `n` occurs in `h` starting at position `i`.
pub open spec fn occurs_at(h: Seq<char>, n: Seq<char>, i: int) -> bool {
    0 <= i && i + n.len() <= h.len() && h.subrange(i, i + n.len()) == n
}

/// The first position at or after `i` where `n` occurs in `h`.
pub open spec fn find_from(h: Seq<char>, n: Seq<char>, i: nat) -> Option<nat>
    decreases h.len() + 1 - i,
{
    if i + n.len() > h.len() {
        None
    } else if occurs_at(h, n, i as int) {
        Some(i)
    } else {
        find_from(h, n, i + 1)
    }
}

/// The first position where `n` occurs in `h` (what `str::find` reports, counted in characters).
pub open spec fn find_first(h: Seq<char>, n: Seq<char>) -> Option<nat> {
    find_from(h, n, 0)
}

/// `find_from` yields a real occurrence, and none comes before it.
pub proof fn lemma_find_from(h: Seq<char>, n: Seq<char>, i: nat)
    ensures
        match find_from(h, n, i) {
            Some(p) => i <= p && occurs_at(h, n, p as int) && forall|q: int|
                i <= q < p ==> !occurs_at(h, n, q),
            None => forall|q: int| i <= q ==> !occurs_at(h, n, q),
        },
    decreases h.len() + 1 - i,
{
    if i + n.len() > h.len() {
    } else if occurs_at(h, n, i as int) {
    } else {
        lemma_find_from(h, n, i + 1);
    }
}

/// Whether `v[i..]` starts with `n`.
fn matches_at(v: &Vec<char>, i: usize, hi: usize, n: &Vec<char>) -> (b: bool)
    requires
        i <= hi <= v.len(),
    ensures
        b == (i + n.len() <= hi && v@.subrange(i as int, i + n.len()) == n@),
{
    if n.len() > hi - i {
        return false;
    }
    let mut k: usize = 0;
    while k < n.len()
        invariant
            i + n.len() <= hi <= v.len(),
            k <= n.len(),
            forall|j: int| 0 <= j < k ==> v@[i + j] == n@[j],
        decreases n.len() - k,
    {
        if v[i + k] != n[k] {
            assert(v@.subrange(i as int, i + n.len())[k as int] != n@[k as int]);
            return false;
        }
        k = k + 1;
    }
    assert(v@.subrange(i as int, i + n.len()) =~= n@);
    true
}

/// The first position of `n` within `v[lo..hi]`, as an absolute index into `v`.
pub fn find_in(v: &Vec<char>, lo: usize, hi: usize, n: &Vec<char>) -> (r: Option<usize>)
    requires
        lo <= hi <= v.len(),
    ensures
        match r {
            Some(p) => lo <= p && p + n.len() <= hi && find_first(v@.subrange(lo as int, hi as int), n@)
                == Some((p - lo) as nat),
            None => find_first(v@.subrange(lo as int, hi as int), n@) is None,
        },
{
    let ghost h = v@.subrange(lo as int, hi as int);
    let mut i = lo;
    while i < hi && n.len() <= hi - i
        invariant
            lo <= i <= hi <= v.len(),
            h == v@.subrange(lo as int, hi as int),
            find_from(h, n@, (i - lo) as nat) == find_first(h, n@),
        decreases hi - i,
    {
        let m = matches_at(v, i, hi, n);
        assert(m == occurs_at(h, n@, i - lo)) by {
            if i + n.len() <= hi {
                assert(h.subrange(i - lo, i - lo + n.len()) =~= v@.subrange(i as int, i + n.len()));
            }
        }
        if m {
            return Some(i);
        }
        i = i + 1;
    }
    if n.len() == 0 {
        assert(occurs_at(h, n@, i - lo)) by {
            assert(h.subrange(i - lo, i - lo) =~= n@);
        }
        return Some(i);
    }
    None
}

/// The index of the first line feed in `s` at or after `i`, or `s.len()` when there is none.
pub open spec fn next_newline(s: Seq<char>, i: nat) -> nat
    decreases s.len() - i,
{
    if i >= s.len() {
        s.len()
    } else if s[i as int] == '\n' {
        i
    } else {
        next_newline(s, i + 1)
    }
}

/// `next_newline` stays within bounds and finds a real line feed.
pub proof fn lemma_next_newline(s: Seq<char>, i: nat)
    requires
        i <= s.len(),
    ensures
        i <= next_newline(s, i) <= s.len(),
        next_newline(s, i) < s.len() ==> s[next_newline(s, i) as int] == '\n',
        forall|j: int| i <= j < next_newline(s, i) ==> s[j] != '\n',
    decreases s.len() - i,
{
    if i < s.len() && s[i as int] != '\n' {
        lemma_next_newline(s, i + 1);
    }
}

/// A line taken before a line feed, without a carriage return that ended it.
pub open spec fn strip_cr(l: Seq<char>) -> Seq<char> {
    if l.len() > 0 && l.last() == '\r' {
        l.drop_last()
    } else {
        l
    }
}

/// The lines of `s` from position `start` on, as `str::lines` yields them: split at each line
/// feed, a carriage return just before a line feed dropped, no empty line after a final line feed.
pub open spec fn lines_from(s: Seq<char>, start: nat) -> Seq<Seq<char>>
    decreases s.len() - start,
{
    if start >= s.len() {
        Seq::empty()
    } else {
        let k = next_newline(s, start);
        proof {
            lemma_next_newline(s, start);
        }
        if k < s.len() {
            seq![strip_cr(s.subrange(start as int, k as int))] + lines_from(s, k + 1)
        } else {
            seq![s.subrange(start as int, s.len() as int)]
        }
    }
}

/// The lines of `s` (what `str::lines` yields).
pub open spec fn lines_of(s: Seq<char>) -> Seq<Seq<char>> {
    lines_from(s, 0)
}

/// The texts of `v` that the ranges `r` delimit.
pub open spec fn range_texts(v: Seq<char>, r: Seq<(usize, usize)>) -> Seq<Seq<char>> {
    Seq::new(r.len(), |k: int| v.subrange(r[k].0 as int, r[k].1 as int))
}

/// The bounds of every line of `v`, in order.
pub fn line_ranges(v: &Vec<char>) -> (r: Vec<(usize, usize)>)
    ensures
        range_texts(v@, r@) == lines_of(v@),
        forall|k: int| 0 <= k < r.len() ==> (#[trigger] r@[k]).0 <= r@[k].1 <= v.len(),
{
    let mut r: Vec<(usize, usize)> = Vec::new();
    let mut start: usize = 0;
    while start < v.len()
        invariant
            start <= v.len(),
            range_texts(v@, r@) + lines_from(v@, start as nat) == lines_of(v@),
            forall|k: int| 0 <= k < r.len() ==> (#[trigger] r@[k]).0 <= r@[k].1 <= v.len(),
        decreases v.len() - start,
    {
        let mut k = start;
        while k < v.len() && v[k] != '\n'
            invariant
                start <= k <= v.len(),
                next_newline(v@, k as nat) == next_newline(v@, start as nat),
            decreases v.len() - k,
        {
            k = k + 1;
        }
        proof {
            lemma_next_newline(v@, start as nat);
        }
        let ghost old_r = r@;
        if k < v.len() {
            let end = if k > start && v[k - 1] == '\r' { k - 1 } else { k };
            assert(v@.subrange(start as int, end as int) == strip_cr(v@.subrange(start as int, k as int))) by {
                if k > start && v@[k - 1] == '\r' {
                    assert(v@.subrange(start as int, k as int).drop_last() =~= v@.subrange(start as int, k - 1));
                }
            }
            r.push((start, end));
            assert(range_texts(v@, r@) =~= range_texts(v@, old_r).push(v@.subrange(start as int, end as int)));
            assert(lines_from(v@, start as nat) == seq![v@.subrange(start as int, end as int)] + lines_from(v@, (k + 1) as nat));
            assert(range_texts(v@, r@) + lines_from(v@, (k + 1) as nat) =~= range_texts(v@, old_r) + lines_from(v@, start as nat));
            start = k + 1;
        } else {
            r.push((start, v.len()));
            assert(range_texts(v@, r@) =~= range_texts(v@, old_r).push(v@.subrange(start as int, v.len() as int)));
            assert(lines_from(v@, v.len() as nat) =~= Seq::<Seq<char>>::empty());
            assert(range_texts(v@, r@) + lines_from(v@, v.len() as nat) =~= range_texts(v@, old_r) + lines_from(v@, start as nat));
            start = v.len();
        }
    }
    assert(lines_from(v@, start as nat) =~= Seq::<Seq<char>>::empty());
    assert(range_texts(v@, r@) =~= range_texts(v@, r@) + lines_from(v@, start as nat));
    r
}


/// The decimal digit character for `d` (0 to 9).
pub open spec fn digit_char(d: int) -> char {
    if d == 0 { '0' }
    else if d == 1 { '1' }
    else if d == 2 { '2' }
    else if d == 3 { '3' }
    else if d == 4 { '4' }
    else if d == 5 { '5' }
    else if d == 6 { '6' }
    else if d == 7 { '7' }
    else if d == 8 { '8' }
    else { '9' }
}

/// The decimal representation of `n`, without sign or leading zeros (what `{}` prints).
pub open spec fn decimal(n: nat) -> Seq<char>
    decreases n,
{
    if n < 10 {
        seq![digit_char(n as int)]
    } else {
        decimal(n / 10).push(digit_char((n % 10) as int))
    }
}

fn digit(d: u64) -> (c: char)
    requires
        d < 10,
    ensures
        c == digit_char(d as int),
{
    match d {
        0 => '0',
        1 => '1',
        2 => '2',
        3 => '3',
        4 => '4',
        5 => '5',
        6 => '6',
        7 => '7',
        8 => '8',
        _ => '9',
    }
}

/// Appends the decimal representation of `n` to `s`.
pub fn push_decimal(s: &mut String, n: u64)
    ensures
        final(s)@ == old(s)@ + decimal(n as nat),
    decreases n,
{
    if n >= 10 {
        push_decimal(s, n / 10);
    }
    push_char(s, digit(n % 10));
    assert(n >= 10 ==> decimal(n as nat) == decimal((n / 10) as nat).push(digit_char((n % 10) as int)));
}

/// The pieces of `parts` joined by `sep`.
pub open spec fn join_with(parts: Seq<Seq<char>>, sep: Seq<char>) -> Seq<char>
    decreases parts.len(),
{
    if parts.len() == 0 {
        Seq::empty()
    } else if parts.len() == 1 {
        parts[0]
    } else {
        join_with(parts.drop_last(), sep) + sep + parts.last()
    }
}

/// Whether `a` and `b` hold the same characters.
pub fn same_text(a: &Vec<char>, b: &Vec<char>) -> (r: bool)
    ensures
        r == (a@ == b@),
{
    if a.len() != b.len() {
        return false;
    }
    let mut i: usize = 0;
    while i < a.len()
        invariant
            a.len() == b.len(),
            i <= a.len(),
            forall|j: int| 0 <= j < i ==> a@[j] == b@[j],
        decreases a.len() - i,
    {
        if a[i] != b[i] {
            return false;
        }
        i = i + 1;
    }
    assert(a@ =~= b@);
    true
}

/// Whether the strings `a` and `b` hold the same characters.
pub fn str_equal(a: &str, b: &str) -> (r: bool)
    ensures
        r == (a@ == b@),
{
    same_text(&chars_of(a), &chars_of(b))
}

} // verus!
