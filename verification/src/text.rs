//! Text as sequences of characters: numbers in decimal, and the searches and
//! splits that the parsers and message builders use.

use vstd::prelude::*;

verus! {

/// `String::push` appends one character at the end.
pub assume_specification[ String::push ](s: &mut String, c: char)
    ensures
        final(s)@ == old(s)@.push(c),
;

/// The decimal digit for `d`, which is below ten.
pub open spec fn digit(d: nat) -> char {
    if d == 0 {
        '0'
    } else if d == 1 {
        '1'
    } else if d == 2 {
        '2'
    } else if d == 3 {
        '3'
    } else if d == 4 {
        '4'
    } else if d == 5 {
        '5'
    } else if d == 6 {
        '6'
    } else if d == 7 {
        '7'
    } else if d == 8 {
        '8'
    } else {
        '9'
    }
}

/// `n` written in decimal, without leading zeros.
pub open spec fn decimal(n: nat) -> Seq<char>
    decreases n,
{
    if n < 10 {
        seq![digit(n)]
    } else {
        decimal(n / 10).push(digit(n % 10))
    }
}

/// `i` written in decimal, with a minus sign when it is negative.
pub open spec fn signed_decimal(i: int) -> Seq<char> {
    if i < 0 {
        seq!['-'] + decimal((-i) as nat)
    } else {
        decimal(i as nat)
    }
}

fn digit_char(d: u128) -> (c: char)
    requires
        d < 10,
    ensures
        c == digit(d as nat),
{
    match d {
        0 => '0',
        1 => '1',
        2 => '2',
        3 => '3',
        4 => '4',
        5 => '5',
        6 => '6',
        7 => '7',
        8 => '8',
        _ => '9',
    }
}

/// Append `n` in decimal.
pub fn push_decimal(out: &mut String, n: u128)
    ensures
        final(out)@ == old(out)@ + decimal(n as nat),
    decreases n,
{
    if n >= 10 {
        push_decimal(out, n / 10);
    }
    out.push(digit_char(n % 10));
    assert(out@ =~= old(out)@ + decimal(n as nat));
}

/// `n` in decimal.
pub fn decimal_string(n: u64) -> (s: String)
    ensures
        s@ == decimal(n as nat),
{
    wide_decimal_string(n as u128)
}

/// `n` in decimal.
pub fn wide_decimal_string(n: u128) -> (s: String)
    ensures
        s@ == decimal(n as nat),
{
    let mut s = String::new();
    push_decimal(&mut s, n);
    assert(s@ =~= decimal(n as nat));
    s
}

/// `i` in decimal, with a minus sign when it is negative.
pub fn signed_decimal_string(i: i64) -> (s: String)
    ensures
        s@ == signed_decimal(i as int),
{
    let mut s = String::new();
    if i < 0 {
        s.push('-');
        push_decimal(&mut s, (-(i as i128)) as u128);
    } else {
        push_decimal(&mut s, i as u128);
    }
    assert(s@ =~= signed_decimal(i as int));
    s
}

/// The characters of `s`, in order.
pub fn chars_of(s: &str) -> (v: Vec<char>)
    ensures
        v@ == s@,
{
    let mut v: Vec<char> = Vec::new();
    for c in it: s.chars()
        invariant
            it.seq() == s@,
            v@ == s@.take(it.index() as int),
    {
        v.push(c);
        assert(v@ =~= s@.take(it.index() + 1));
    }
    assert(v@ =~= s@);
    v
}

/// The characters `from..to` of `v` as a string.
pub fn text_of(v: &Vec<char>, from: usize, to: usize) -> (s: String)
    requires
        from <= to <= v@.len(),
    ensures
        s@ == v@.subrange(from as int, to as int),
{
    let mut s = String::new();
    let mut i: usize = from;
    while i < to
        invariant
            from <= i <= to <= v@.len(),
            s@ == v@.subrange(from as int, i as int),
        decreases to - i,
    {
        s.push(v[i]);
        i = i + 1;
        assert(s@ =~= v@.subrange(from as int, i as int));
    }
    s
}

/// The characters `from..to` of `v`.
pub fn slice_of(v: &Vec<char>, from: usize, to: usize) -> (s: Vec<char>)
    requires
        from <= to <= v@.len(),
    ensures
        s@ == v@.subrange(from as int, to as int),
{
    let mut s: Vec<char> = Vec::new();
    let mut i: usize = from;
    while i < to
        invariant
            from <= i <= to <= v@.len(),
            s@ == v@.subrange(from as int, i as int),
        decreases to - i,
    {
        s.push(v[i]);
        i = i + 1;
        assert(s@ =~= v@.subrange(from as int, i as int));
    }
    s
}

/// Whether `a` and `b` are the same text.
pub fn text_eq(a: &str, b: &str) -> (r: bool)
    ensures
        r == (a@ == b@),
{
    a.to_owned() == b.to_owned()
}

/// Whether `v` and `w` hold the same characters.
pub fn chars_eq(v: &Vec<char>, w: &Vec<char>) -> (r: bool)
    ensures
        r == (v@ == w@),
{
    if v.len() != w.len() {
        return false;
    }
    let mut i: usize = 0;
    while i < v.len()
        invariant
            i <= v@.len(),
            v@.len() == w@.len(),
            forall|k: int| 0 <= k < i ==> v@[k] == w@[k],
        decreases v@.len() - i,
    {
        if v[i] != w[i] {
            return false;
        }
        i = i + 1;
    }
    assert(v@ =~= w@);
    true
}

/// Whether `items` holds `s`.
pub fn list_contains(items: &Vec<String>, s: &str) -> (r: bool)
    ensures
        r == exists|i: int| 0 <= i < items@.len() && (#[trigger] items@[i])@ == s@,
{
    let mut i: usize = 0;
    while i < items.len()
        invariant
            i <= items@.len(),
            forall|k: int| 0 <= k < i ==> (#[trigger] items@[k])@ != s@,
        decreases items@.len() - i,
    {
        if text_eq(items[i].as_str(), s) {
            return true;
        }
        i = i + 1;
    }
    false
}

/// A class of characters.
#[derive(Clone, Copy)]
pub enum Class {
    /// White space, as Unicode defines it.
    White,
    /// One character.
    One(char),
    /// Either of two.
    Two(char, char),
    /// White space or one more.
    WhiteOr(char),
}

/// Unicode's `White_Space` property.
pub open spec fn is_white(c: char) -> bool {
    let u = c as u32;
    ||| 0x9 <= u <= 0xd
    ||| u == 0x20
    ||| u == 0x85
    ||| u == 0xa0
    ||| u == 0x1680
    ||| 0x2000 <= u <= 0x200a
    ||| u == 0x2028
    ||| u == 0x2029
    ||| u == 0x202f
    ||| u == 0x205f
    ||| u == 0x3000
}

impl Class {
    pub open spec fn has(self, c: char) -> bool {
        match self {
            Class::White => is_white(c),
            Class::One(a) => c == a,
            Class::Two(a, b) => c == a || c == b,
            Class::WhiteOr(a) => is_white(c) || c == a,
        }
    }

    pub fn holds(&self, c: char) -> (r: bool)
        ensures
            r == self.has(c),
    {
        let u: u32 = c as u32;
        let white: bool = (0x9 <= u && u <= 0xd) || u == 0x20 || u == 0x85 || u == 0xa0 || u
            == 0x1680 || (0x2000 <= u && u <= 0x200a) || u == 0x2028 || u == 0x2029 || u == 0x202f
            || u == 0x205f || u == 0x3000;
        match *self {
            Class::White => white,
            Class::One(a) => c == a,
            Class::Two(a, b) => c == a || c == b,
            Class::WhiteOr(a) => white || c == a,
        }
    }
}

/// `s` without the characters of `class` that it starts with.
pub open spec fn skip_while(s: Seq<char>, class: Class) -> Seq<char>
    decreases s.len(),
{
    if s.len() > 0 && class.has(s[0]) {
        skip_while(s.skip(1), class)
    } else {
        s
    }
}

/// `s` without the characters of `class` that it ends with.
pub open spec fn drop_while(s: Seq<char>, class: Class) -> Seq<char>
    decreases s.len(),
{
    if s.len() > 0 && class.has(s.last()) {
        drop_while(s.drop_last(), class)
    } else {
        s
    }
}

/// How many characters `s` has before its first one of `class`, or in all.
pub open spec fn until(s: Seq<char>, class: Class) -> nat
    decreases s.len(),
{
    if s.len() == 0 || class.has(s[0]) {
        0
    } else {
        1 + until(s.skip(1), class)
    }
}

/// `s` without white space at either end.
pub open spec fn trimmed(s: Seq<char>) -> Seq<char> {
    drop_while(skip_while(s, Class::White), Class::White)
}

/// The first word of `s`, where white space parts words.
pub open spec fn first_word(s: Seq<char>) -> Option<Seq<char>> {
    let t = skip_while(s, Class::White);
    if t.len() == 0 {
        None
    } else {
        Some(t.take(until(t, Class::White) as int))
    }
}

/// What stands before and after the first `c` in `s`.
pub open spec fn split_once(s: Seq<char>, c: char) -> Option<(Seq<char>, Seq<char>)> {
    let k = until(s, Class::One(c)) as int;
    if k == s.len() {
        None
    } else {
        Some((s.take(k), s.skip(k + 1)))
    }
}

/// What follows `prefix` in `s`, if `s` starts with it.
pub open spec fn strip_prefix(s: Seq<char>, prefix: Seq<char>) -> Option<Seq<char>> {
    if prefix.is_prefix_of(s) {
        Some(s.skip(prefix.len() as int))
    } else {
        None
    }
}

/// Whether `pattern` stands in `s` at `i`.
pub open spec fn stands_at(s: Seq<char>, pattern: Seq<char>, i: int) -> bool {
    0 <= i && i + pattern.len() <= s.len() && s.subrange(i, i + pattern.len()) == pattern
}

/// Whether `pattern` stands anywhere in `s`.
pub open spec fn contains(s: Seq<char>, pattern: Seq<char>) -> bool {
    exists|i: int| stands_at(s, pattern, i)
}

/// The first place, from `i` on, at which `pattern` stands in `s`.
pub open spec fn find_from(s: Seq<char>, pattern: Seq<char>, i: int) -> Option<int>
    decreases s.len() + 1 - i,
{
    if i < 0 || i > s.len() {
        None
    } else if stands_at(s, pattern, i) {
        Some(i)
    } else {
        find_from(s, pattern, i + 1)
    }
}

/// What a search from the front finds.
proof fn lemma_find_from(s: Seq<char>, pattern: Seq<char>, i: int, at: Option<int>)
    requires
        0 <= i,
        match at {
            Some(k) => i <= k && stands_at(s, pattern, k) && forall|j: int|
                i <= j < k ==> !stands_at(s, pattern, j),
            None => forall|j: int| i <= j ==> !stands_at(s, pattern, j),
        },
    ensures
        find_from(s, pattern, i) == at,
    decreases s.len() + 1 - i,
{
    if i <= s.len() && !stands_at(s, pattern, i) {
        lemma_find_from(s, pattern, i + 1, at);
    }
}

/// The pieces of `s` between characters of `class`: always one more than there
/// are such characters.
pub open spec fn split(s: Seq<char>, class: Class) -> Seq<Seq<char>>
    decreases s.len(),
{
    if s.len() == 0 {
        seq![Seq::empty()]
    } else {
        let before = split(s.drop_last(), class);
        if class.has(s.last()) {
            before.push(Seq::empty())
        } else {
            before.drop_last().push(before.last().push(s.last()))
        }
    }
}

/// `s` without one carriage return at its end.
pub open spec fn without_return(s: Seq<char>) -> Seq<char> {
    if s.len() > 0 && s.last() == '\r' {
        s.drop_last()
    } else {
        s
    }
}

/// The lines of `s`. A line ends at a newline, or at a carriage return and a
/// newline; the last line may go without.
pub open spec fn lines(s: Seq<char>) -> Seq<Seq<char>> {
    let pieces = split(s, Class::One('\n'));
    let ended = Seq::new((pieces.len() - 1) as nat, |i: int| without_return(pieces[i]));
    if pieces.last().len() == 0 {
        ended
    } else {
        ended.push(pieces.last())
    }
}

/// Each of `pieces` as a sequence.
pub open spec fn pieces_view(pieces: Seq<Vec<char>>) -> Seq<Seq<char>> {
    Seq::new(pieces.len(), |i: int| pieces[i]@)
}

/// `split` has at least one piece.
pub proof fn lemma_split_len(s: Seq<char>, class: Class)
    ensures
        split(s, class).len() >= 1,
    decreases s.len(),
{
    if s.len() > 0 {
        lemma_split_len(s.drop_last(), class);
    }
}

/// The pieces of two texts with a character of `class` between them are those of
/// the one and then those of the other.
pub proof fn lemma_split_joined(a: Seq<char>, c: char, b: Seq<char>, class: Class)
    requires
        class.has(c),
    ensures
        split(a.push(c) + b, class) == split(a, class) + split(b, class),
    decreases b.len(),
{
    let s = a.push(c) + b;
    lemma_split_len(b, class);
    if b.len() == 0 {
        assert(s.drop_last() =~= a);
        assert(split(s, class) =~= split(a, class) + split(b, class));
    } else {
        let init = b.drop_last();
        assert(s.drop_last() =~= a.push(c) + init);
        lemma_split_joined(a, c, init, class);
        lemma_split_len(init, class);
        assert(s.last() == b.last());
        assert(split(s, class) =~= split(a, class) + split(b, class));
    }
}

/// White space at the end of a text does not matter once it is trimmed.
pub proof fn lemma_trimmed_push(s: Seq<char>, c: char)
    requires
        is_white(c),
    ensures
        trimmed(s.push(c)) == trimmed(s),
    decreases s.len(),
{
    if s.len() > 0 && is_white(s[0]) {
        assert(s.push(c).skip(1) =~= s.skip(1).push(c));
        lemma_trimmed_push(s.skip(1), c);
    } else if s.len() == 0 {
        assert(s.push(c).skip(1) =~= s);
    } else {
        assert(s.push(c).drop_last() =~= s);
    }
}

/// How many characters of `class` `v` starts with.
pub fn skip_while_at(v: &Vec<char>, class: Class) -> (i: usize)
    ensures
        i <= v@.len(),
        v@.skip(i as int) == skip_while(v@, class),
{
    let mut i: usize = 0;
    assert(v@.skip(0) =~= v@);
    while i < v.len() && class.holds(v[i])
        invariant
            i <= v@.len(),
            skip_while(v@.skip(i as int), class) == skip_while(v@, class),
        decreases v@.len() - i,
    {
        assert(v@.skip(i as int).skip(1) =~= v@.skip(i + 1));
        i = i + 1;
    }
    i
}

/// The length of `v` without the characters of `class` that it ends with.
pub fn drop_while_at(v: &Vec<char>, class: Class) -> (n: usize)
    ensures
        n <= v@.len(),
        v@.take(n as int) == drop_while(v@, class),
{
    let mut n: usize = v.len();
    assert(v@.take(n as int) =~= v@);
    while n > 0 && class.holds(v[n - 1])
        invariant
            n <= v@.len(),
            drop_while(v@.take(n as int), class) == drop_while(v@, class),
        decreases n,
    {
        assert(v@.take(n as int).drop_last() =~= v@.take(n - 1));
        n = n - 1;
    }
    n
}

/// `until` is the position of the first character of the class.
proof fn lemma_until(s: Seq<char>, class: Class, n: int)
    requires
        0 <= n <= s.len(),
        forall|k: int| 0 <= k < n ==> !class.has(#[trigger] s[k]),
        n < s.len() ==> class.has(s[n]),
    ensures
        until(s, class) == n,
    decreases s.len(),
{
    if n > 0 {
        let t = s.skip(1);
        assert forall|k: int| 0 <= k < n - 1 implies !class.has(#[trigger] t[k]) by {
            assert(t[k] == s[k + 1]);
        }
        lemma_until(t, class, n - 1);
    }
}

/// How many characters `v` has before its first one of `class`, or in all.
pub fn until_at(v: &Vec<char>, class: Class) -> (n: usize)
    ensures
        n == until(v@, class),
        n <= v@.len(),
{
    let mut n: usize = 0;
    while n < v.len() && !class.holds(v[n])
        invariant
            n <= v@.len(),
            forall|k: int| 0 <= k < n ==> !class.has(#[trigger] v@[k]),
        decreases v@.len() - n,
    {
        n = n + 1;
    }
    proof {
        lemma_until(v@, class, n as int);
    }
    n
}

/// `v` without the characters of `class` that it starts with.
pub fn skipped(v: &Vec<char>, class: Class) -> (r: Vec<char>)
    ensures
        r@ == skip_while(v@, class),
{
    let from: usize = skip_while_at(v, class);
    let r = slice_of(v, from, v.len());
    assert(r@ =~= v@.skip(from as int));
    r
}

/// `v` without the characters of `class` that it ends with.
pub fn dropped(v: &Vec<char>, class: Class) -> (r: Vec<char>)
    ensures
        r@ == drop_while(v@, class),
{
    let to: usize = drop_while_at(v, class);
    let r = slice_of(v, 0, to);
    assert(r@ =~= v@.take(to as int));
    r
}

/// `v` without white space at either end.
pub fn trim(v: &Vec<char>) -> (r: Vec<char>)
    ensures
        r@ == trimmed(v@),
{
    dropped(&skipped(v, Class::White), Class::White)
}

/// The first word of `v`, where white space parts words.
pub fn word(v: &Vec<char>) -> (r: Option<Vec<char>>)
    ensures
        match r {
            Some(w) => first_word(v@) == Some(w@),
            None => first_word(v@) is None,
        },
{
    let t = skipped(v, Class::White);
    if t.len() == 0 {
        None
    } else {
        let n: usize = until_at(&t, Class::White);
        let w = slice_of(&t, 0, n);
        assert(w@ =~= t@.take(n as int));
        Some(w)
    }
}

/// What stands before and after the first `c` in `v`.
pub fn part_at(v: &Vec<char>, c: char) -> (r: Option<(Vec<char>, Vec<char>)>)
    ensures
        match r {
            Some((a, b)) => split_once(v@, c) == Some((a@, b@)),
            None => split_once(v@, c) is None,
        },
{
    let k: usize = until_at(v, Class::One(c));
    if k == v.len() {
        None
    } else {
        let a = slice_of(v, 0, k);
        let b = slice_of(v, k + 1, v.len());
        assert(a@ =~= v@.take(k as int));
        assert(b@ =~= v@.skip(k + 1));
        Some((a, b))
    }
}

/// Whether `pattern` stands in `v` at `i`.
fn is_at(v: &Vec<char>, pattern: &Vec<char>, i: usize) -> (r: bool)
    ensures
        r == stands_at(v@, pattern@, i as int),
{
    if pattern.len() > v.len() || i > v.len() - pattern.len() {
        return false;
    }
    let mut k: usize = 0;
    while k < pattern.len()
        invariant
            i + pattern@.len() <= v@.len(),
            v@.len() <= usize::MAX,
            k <= pattern@.len(),
            forall|j: int| 0 <= j < k ==> v@[i + j] == #[trigger] pattern@[j],
        decreases pattern@.len() - k,
    {
        if v[i + k] != pattern[k] {
            assert(v@.subrange(i as int, i + pattern@.len())[k as int] != pattern@[k as int]);
            return false;
        }
        k = k + 1;
    }
    assert(v@.subrange(i as int, i + pattern@.len()) =~= pattern@);
    true
}

/// The first place at which `pattern` stands in `v`.
pub fn find(v: &Vec<char>, pattern: &str) -> (r: Option<usize>)
    ensures
        match r {
            Some(i) => find_from(v@, pattern@, 0) == Some(i as int) && stands_at(
                v@,
                pattern@,
                i as int,
            ),
            None => find_from(v@, pattern@, 0) is None && !contains(v@, pattern@),
        },
{
    let p = chars_of(pattern);
    if p.len() > v.len() {
        proof {
            lemma_find_from(v@, pattern@, 0, None);
        }
        return None;
    }
    let last: usize = v.len() - p.len();
    let mut i: usize = 0;
    while i <= last
        invariant
            p@ == pattern@,
            last + p@.len() == v@.len(),
            v@.len() <= usize::MAX,
            i <= last + 1,
            forall|j: int| 0 <= j < i ==> !stands_at(v@, pattern@, j),
        decreases last + 1 - i,
    {
        if is_at(v, &p, i) {
            proof {
                lemma_find_from(v@, pattern@, 0, Some(i as int));
            }
            return Some(i);
        }
        if i == last {
            proof {
                lemma_find_from(v@, pattern@, 0, None);
            }
            return None;
        }
        i = i + 1;
    }
    proof {
        lemma_find_from(v@, pattern@, 0, None);
    }
    None
}

/// Whether `pattern` stands anywhere in `v`.
pub fn contains_text(v: &Vec<char>, pattern: &str) -> (r: bool)
    ensures
        r == contains(v@, pattern@),
{
    match find(v, pattern) {
        Some(_) => true,
        None => false,
    }
}

/// What follows `prefix` in `v`, if `v` starts with it.
pub fn after_prefix(v: &Vec<char>, prefix: &str) -> (r: Option<Vec<char>>)
    ensures
        match r {
            Some(rest) => strip_prefix(v@, prefix@) == Some(rest@),
            None => strip_prefix(v@, prefix@) is None,
        },
{
    let p = chars_of(prefix);
    if is_at(v, &p, 0) {
        assert(prefix@.is_prefix_of(v@)) by {
            assert(v@.subrange(0, p@.len() as int) == p@);
        }
        let rest = slice_of(v, p.len(), v.len());
        assert(rest@ =~= v@.skip(p@.len() as int));
        Some(rest)
    } else {
        assert(!prefix@.is_prefix_of(v@)) by {
            if prefix@.is_prefix_of(v@) {
                assert(v@.subrange(0, p@.len() as int) == p@);
            }
        }
        None
    }
}

/// The pieces of `v` between characters of `class`.
pub fn split_by(v: &Vec<char>, class: Class) -> (pieces: Vec<Vec<char>>)
    ensures
        pieces_view(pieces@) == split(v@, class),
{
    let mut pieces: Vec<Vec<char>> = Vec::new();
    let mut piece: Vec<char> = Vec::new();
    let mut i: usize = 0;
    assert(pieces_view(pieces@).push(piece@) =~= split(v@.take(0), class));
    while i < v.len()
        invariant
            i <= v@.len(),
            pieces_view(pieces@).push(piece@) == split(v@.take(i as int), class),
        decreases v@.len() - i,
    {
        let ghost before = pieces_view(pieces@).push(piece@);
        assert(v@.take(i + 1).drop_last() =~= v@.take(i as int));
        assert(before.drop_last() =~= pieces_view(pieces@));
        if class.holds(v[i]) {
            pieces.push(piece);
            piece = Vec::new();
            assert(pieces_view(pieces@) =~= before);
            assert(piece@ =~= Seq::<char>::empty());
        } else {
            piece.push(v[i]);
        }
        i = i + 1;
    }
    assert(v@.take(i as int) =~= v@);
    let ghost whole = pieces_view(pieces@).push(piece@);
    pieces.push(piece);
    assert(pieces_view(pieces@) =~= whole);
    pieces
}

/// The lines of `s`.
pub fn lines_of(s: &str) -> (out: Vec<Vec<char>>)
    ensures
        pieces_view(out@) == lines(s@),
{
    let v = chars_of(s);
    let pieces = split_by(&v, Class::One('\n'));
    proof {
        lemma_split_len(v@, Class::One('\n'));
        assert(pieces@.len() == pieces_view(pieces@).len());
    }
    let last: usize = pieces.len() - 1;
    let mut out: Vec<Vec<char>> = Vec::new();
    let mut i: usize = 0;
    while i < last
        invariant
            i <= last,
            last + 1 == pieces@.len(),
            out@.len() == i,
            forall|k: int|
                0 <= k < i ==> (#[trigger] out@[k])@ == without_return(pieces@[k]@),
        decreases last - i,
    {
        let n: usize = pieces[i].len();
        let keep: usize = if n > 0 && pieces[i][n - 1] == '\r' {
            n - 1
        } else {
            n
        };
        let line = slice_of(&pieces[i], 0, keep);
        assert(line@ =~= without_return(pieces@[i as int]@));
        out.push(line);
        i = i + 1;
    }
    let ghost ended = Seq::new(
        (pieces@.len() - 1) as nat,
        |i: int| without_return(pieces_view(pieces@)[i]),
    );
    assert(pieces_view(out@) =~= ended);
    assert(pieces_view(pieces@).last() == pieces@[last as int]@);
    if pieces[last].len() > 0 {
        let ghost before = pieces_view(out@);
        let line = slice_of(&pieces[last], 0, pieces[last].len());
        assert(line@ =~= pieces@[last as int]@);
        out.push(line);
        assert(pieces_view(out@) =~= before.push(pieces@[last as int]@));
    }
    out
}

/// Whether `c` is a decimal digit.
pub open spec fn is_digit(c: char) -> bool {
    '0' as u32 <= c as u32 <= '9' as u32
}

/// The number that the digits `d` stand for.
pub open spec fn digits_value(d: Seq<char>) -> nat
    decreases d.len(),
{
    if d.len() == 0 {
        0
    } else {
        digits_value(d.drop_last()) * 10 + (d.last() as u32 - '0' as u32) as nat
    }
}

/// The number that `s` stands for: digits, at least one, with an optional plus
/// sign before them.
pub open spec fn unsigned_value(s: Seq<char>) -> Option<nat> {
    let d = without_plus(s);
    if d.len() > 0 && all_digits(d) {
        Some(digits_value(d))
    } else {
        None
    }
}

/// `s` without one plus sign before it.
pub open spec fn without_plus(s: Seq<char>) -> Seq<char> {
    if s.len() > 0 && s[0] == '+' {
        s.skip(1)
    } else {
        s
    }
}

/// Whether `d` is digits alone.
pub open spec fn all_digits(d: Seq<char>) -> bool {
    forall|i: int| 0 <= i < d.len() ==> is_digit(#[trigger] d[i])
}

/// A number written in decimal is read as that number, so that no two are
/// written alike.
pub proof fn law_decimals_stand_for_their_numbers(n: nat)
    ensures
        decimal(n).len() > 0,
        all_digits(decimal(n)),
        digits_value(decimal(n)) == n,
    decreases n,
{
    reveal_with_fuel(digits_value, 2);
    if n < 10 {
        assert(decimal(n).drop_last() =~= Seq::empty());
    } else {
        law_decimals_stand_for_their_numbers(n / 10);
        assert(decimal(n).drop_last() =~= decimal(n / 10));
    }
}

/// The number that `s` stands for, if it is at most `max`.
pub open spec fn unsigned_upto(s: Seq<char>, max: nat) -> Option<nat> {
    match unsigned_value(s) {
        Some(n) => if n <= max {
            Some(n)
        } else {
            None
        },
        None => None,
    }
}

/// More digits never make a smaller number.
proof fn lemma_digits_grow(d: Seq<char>, n: int)
    requires
        0 <= n <= d.len(),
        all_digits(d),
    ensures
        digits_value(d.take(n)) <= digits_value(d),
    decreases d.len() - n,
{
    if n < d.len() {
        lemma_digits_grow(d, n + 1);
        assert(d.take(n + 1).drop_last() =~= d.take(n));
    } else {
        assert(d.take(n) =~= d);
    }
}

/// Read a number of at most `max`.
pub fn parse_unsigned(v: &Vec<char>, max: u64) -> (r: Option<u64>)
    ensures
        match r {
            Some(n) => unsigned_upto(v@, max as nat) == Some(n as nat),
            None => unsigned_upto(v@, max as nat) is None,
        },
{
    let from: usize = if v.len() > 0 && v[0] == '+' {
        1
    } else {
        0
    };
    let ghost d = v@.skip(from as int);
    assert(from == 0 ==> d =~= v@);
    if from == v.len() {
        return None;
    }
    let mut n: u64 = 0;
    let mut i: usize = from;
    assert(d.take(0) =~= Seq::<char>::empty());
    while i < v.len()
        invariant
            from <= i <= v@.len(),
            from <= 1,
            d == v@.skip(from as int),
            d == without_plus(v@),
            d.len() > 0,
            forall|k: int| 0 <= k < i - from ==> is_digit(#[trigger] d[k]),
            n == digits_value(d.take(i - from)),
            n <= max,
        decreases v@.len() - i,
    {
        let c: char = v[i];
        assert(c == d[i - from]);
        let u: u32 = c as u32;
        if u < 48 || u > 57 {
            assert(!is_digit(d[i - from]));
            return None;
        }
        let wide: u128 = n as u128 * 10 + (u - 48) as u128;
        proof {
            assert(d.take(i - from + 1).drop_last() =~= d.take(i - from));
            assert(digits_value(d.take(i - from + 1)) == wide);
        }
        if wide > max as u128 {
            proof {
                if all_digits(d) {
                    lemma_digits_grow(d, i - from + 1);
                }
            }
            return None;
        }
        n = wide as u64;
        i = i + 1;
    }
    assert(d.take(i - from) =~= d);
    Some(n)
}

/// The texts `items`, with `sep` between each two.
pub open spec fn joined(items: Seq<Seq<char>>, sep: Seq<char>) -> Seq<char>
    decreases items.len(),
{
    if items.len() == 0 {
        Seq::empty()
    } else if items.len() == 1 {
        items[0]
    } else {
        joined(items.drop_last(), sep) + sep + items.last()
    }
}

/// Each of `items` as a sequence.
pub open spec fn texts(items: Seq<String>) -> Seq<Seq<char>> {
    Seq::new(items.len(), |i: int| items[i]@)
}

/// The texts `items`, with `sep` between each two.
pub fn join(items: &Vec<String>, sep: &str) -> (s: String)
    ensures
        s@ == joined(texts(items@), sep@),
{
    let mut s = String::new();
    let mut i: usize = 0;
    assert(texts(items@).take(0) =~= Seq::<Seq<char>>::empty());
    while i < items.len()
        invariant
            i <= items@.len(),
            s@ == joined(texts(items@).take(i as int), sep@),
        decreases items@.len() - i,
    {
        let ghost upto = texts(items@).take(i + 1);
        assert(upto.drop_last() =~= texts(items@).take(i as int));
        if i > 0 {
            s.append(sep);
        }
        s.append(items[i].as_str());
        assert(i == 0 ==> s@ =~= items@[0]@);
        i = i + 1;
    }
    assert(texts(items@).take(i as int) =~= texts(items@));
    s
}

/// Numbers as the `Debug` format of a list shows them.
pub open spec fn number_list(numbers: Seq<nat>) -> Seq<char> {
    "["@ + joined(numbers.map_values(|n: nat| decimal(n)), ", "@) + "]"@
}

/// Numbers as the `Debug` format of a list shows them.
pub fn number_list_string(numbers: &Vec<u64>) -> (s: String)
    ensures
        s@ == number_list(numbers@.map_values(|n: u64| n as nat)),
{
    let ghost all = numbers@.map_values(|n: u64| n as nat).map_values(|n: nat| decimal(n));
    let mut parts: Vec<String> = Vec::new();
    let mut i: usize = 0;
    assert(texts(parts@) =~= all.take(0));
    while i < numbers.len()
        invariant
            i <= numbers@.len(),
            all == numbers@.map_values(|n: u64| n as nat).map_values(|n: nat| decimal(n)),
            texts(parts@) == all.take(i as int),
        decreases numbers@.len() - i,
    {
        let ghost before = texts(parts@);
        parts.push(decimal_string(numbers[i]));
        assert(texts(parts@) =~= before.push(all[i as int]));
        i = i + 1;
        assert(texts(parts@) =~= all.take(i as int));
    }
    assert(all.take(i as int) =~= all);
    "[".to_owned().concat(join(&parts, ", ").as_str()).concat("]")
}

/// Text as the `Debug` format of a string shows it: quoted, with escapes.
pub uninterp spec fn quoted(s: Seq<char>) -> Seq<char>;

/// `Debug` for `str`, through `format`: the text quoted and escaped, which is
/// a function of the text alone.
#[verifier::external_body]
pub(crate) fn quote(s: &str) -> (r: String)
    ensures
        r@ == quoted(s@),
{
    format!("{:?}", s)
}

/// Whether a character is one of the ten digits.
pub open spec fn in_digits(c: char) -> bool {
    "0123456789"@.contains(c)
}

/// Numbers are written with the ten digits alone, without a nought before others,
/// and each digit more stands for ten times what was before and its own value.
pub proof fn law_numbers_are_positional(n: nat, d: nat)
    requires
        d < 10,
    ensures
        decimal(d) == seq![("0123456789"@)[d as int]],
        n > 0 ==> decimal(10 * n + d) == decimal(n).push(("0123456789"@)[d as int]),
        n > 0 ==> decimal(n)[0] != '0',
    decreases n,
{
    reveal_strlit("0123456789");
    assert(decimal(d) =~= seq![("0123456789"@)[d as int]]);
    if n > 0 {
        assert((10 * n + d) / 10 == n && (10 * n + d) % 10 == d);
        if n >= 10 {
            law_numbers_are_positional(n / 10, d);
            assert(decimal(n)[0] == decimal(n / 10)[0]);
        }
    }
}

/// A text with a sign before its digits is a number below nought.
pub proof fn law_signs_mark_numbers_below_nought(i: int)
    ensures
        i >= 0 ==> signed_decimal(i) == decimal(i as nat),
        i < 0 ==> signed_decimal(i) == "-"@ + decimal((-i) as nat),
{
    reveal_strlit("-");
    assert(i < 0 ==> signed_decimal(i) =~= "-"@ + decimal((-i) as nat));
}

/// What is written in decimal is read back, with or without a plus sign, as long as
/// it is not too large.
pub proof fn law_decimals_are_read_back(n: nat, max: nat)
    ensures
        n <= max ==> unsigned_upto(decimal(n), max) == Some(n),
        n > max ==> unsigned_upto(decimal(n), max) is None,
        unsigned_upto("+"@ + decimal(n), max) == unsigned_upto(decimal(n), max),
{
    law_decimals_stand_for_their_numbers(n);
    reveal_strlit("+");
    assert(is_digit(decimal(n)[0]));
    assert(("+"@ + decimal(n)).skip(1) =~= decimal(n));
}

/// Nothing is read as a number but digits, at least one, with at most one plus sign
/// before them.
pub proof fn law_numbers_are_digits_alone(s: Seq<char>, max: nat)
    ensures
        unsigned_upto(s, max) matches Some(n) ==> {
            &&& n <= max
            &&& s.len() > 0
            &&& s[0] == '+' ==> s.len() > 1
            &&& forall|i: int| 0 < i < s.len() ==> in_digits(#[trigger] s[i])
            &&& in_digits(s[0]) || s[0] == '+'
        },
        unsigned_upto(s, max) is None && s.len() > 0 && (forall|i: int|
            0 <= i < s.len() ==> in_digits(#[trigger] s[i])) ==> digits_value(s) > max,
{
    reveal_strlit("0123456789");
    assert forall|c: char| is_digit(c) <==> #[trigger] in_digits(c) by {
        lemma_ten_digits(c);
    }
    assert(!in_digits('+'));
    if unsigned_upto(s, max) is Some {
        let d = without_plus(s);
        assert forall|i: int| 0 < i < s.len() implies in_digits(#[trigger] s[i]) by {
            if s[0] == '+' {
                assert(is_digit(d[i - 1]));
            } else {
                assert(is_digit(d[i]));
            }
        }
        if s[0] != '+' {
            assert(is_digit(d[0]));
        }
    }
}

/// The digits are the ten characters that are called so.
proof fn lemma_ten_digits(c: char)
    ensures
        is_digit(c) <==> in_digits(c),
{
    reveal_strlit("0123456789");
    let all = "0123456789"@;
    if is_digit(c) {
        let k = c as u32 - '0' as u32;
        assert(k == 0 || k == 1 || k == 2 || k == 3 || k == 4 || k == 5 || k == 6 || k == 7 || k == 8
            || k == 9);
        assert(all[k] == c);
    }
}

/// A digit more makes a number ten times as large, and adds its own value.
pub proof fn law_digits_are_read_from_the_left(s: Seq<char>, d: nat)
    requires
        d < 10,
    ensures
        digits_value(Seq::empty()) == 0,
        digits_value(s.push(("0123456789"@)[d as int])) == 10 * digits_value(s) + d,
{
    reveal_strlit("0123456789");
    let c = ("0123456789"@)[d as int];
    assert(s.push(c).drop_last() =~= s);
    assert(c as u32 - '0' as u32 == d);
}

/// White space is the characters that Unicode calls so.
pub proof fn law_white_space_is_what_unicode_says(c: char)
    ensures
        is_white(c) <==> {
            let u = c as u32;
            ||| u == 0x9 || u == 0xa || u == 0xb || u == 0xc || u == 0xd
            ||| u == 0x20 || u == 0x85 || u == 0xa0 || u == 0x1680
            ||| 0x2000 <= u < 0x200b
            ||| u == 0x2028 || u == 0x2029 || u == 0x202f || u == 0x205f || u == 0x3000
        },
{
}

/// Whether all characters of `s` are of `class`.
pub open spec fn all_of(s: Seq<char>, class: Class) -> bool {
    forall|i: int| 0 <= i < s.len() ==> class.has(#[trigger] s[i])
}

/// Whether no character of `s` is of `class`.
pub open spec fn none_of(s: Seq<char>, class: Class) -> bool {
    forall|i: int| 0 <= i < s.len() ==> !class.has(#[trigger] s[i])
}

/// What is skipped at the front is of the class, and what is left does not begin
/// with one.
pub proof fn law_skipping_stops_at_the_first_other(s: Seq<char>, class: Class)
    ensures
        ({
            let t = skip_while(s, class);
            &&& t.len() <= s.len()
            &&& t == s.skip(s.len() - t.len())
            &&& all_of(s.take(s.len() - t.len()), class)
            &&& t.len() > 0 ==> !class.has(t[0])
        }),
    decreases s.len(),
{
    if s.len() > 0 && class.has(s[0]) {
        law_skipping_stops_at_the_first_other(s.skip(1), class);
        let t = skip_while(s, class);
        let u = s.skip(1);
        assert(t =~= s.skip(s.len() - t.len()));
        assert forall|i: int| 0 <= i < s.len() - t.len() implies class.has(
            #[trigger] s.take(s.len() - t.len())[i],
        ) by {
            if i > 0 {
                assert(u.take(u.len() - t.len())[i - 1] == s[i]);
            }
        }
    } else {
        assert(s.skip(0) =~= s);
    }
}

/// What is dropped at the back is of the class, and what is left does not end with
/// one.
pub proof fn law_dropping_stops_at_the_last_other(s: Seq<char>, class: Class)
    ensures
        ({
            let t = drop_while(s, class);
            &&& t.len() <= s.len()
            &&& t == s.take(t.len() as int)
            &&& all_of(s.skip(t.len() as int), class)
            &&& t.len() > 0 ==> !class.has(t.last())
        }),
    decreases s.len(),
{
    if s.len() > 0 && class.has(s.last()) {
        law_dropping_stops_at_the_last_other(s.drop_last(), class);
        let t = drop_while(s, class);
        let u = s.drop_last();
        assert(t =~= s.take(t.len() as int));
        assert forall|i: int| 0 <= i < s.len() - t.len() implies class.has(
            #[trigger] s.skip(t.len() as int)[i],
        ) by {
            if i < u.len() - t.len() {
                assert(u.skip(t.len() as int)[i] == s[t.len() + i]);
            }
        }
    } else {
        assert(s.take(s.len() as int) =~= s);
    }
}

/// A text is white space, then what is left of it trimmed, then white space; and
/// what is left neither begins nor ends with any.
pub proof fn law_trimming_takes_white_space_alone(s: Seq<char>)
    ensures
        ({
            let t = trimmed(s);
            &&& t.len() > 0 ==> !is_white(t[0]) && !is_white(t.last())
            &&& exists|a: int|
                0 <= a <= a + t.len() <= s.len() && t == #[trigger] s.subrange(a, a + t.len())
                    && all_of(s.take(a), Class::White) && all_of(
                    s.skip(a + t.len()),
                    Class::White,
                )
        }),
{
    let u = skip_while(s, Class::White);
    let t = trimmed(s);
    law_skipping_stops_at_the_first_other(s, Class::White);
    law_dropping_stops_at_the_last_other(u, Class::White);
    let a = s.len() - u.len();
    assert(t =~= s.subrange(a, a + t.len()));
    assert(u.skip(t.len() as int) =~= s.skip(a + t.len()));
}

/// What comes before the first character of a class holds none of it.
pub proof fn law_until_counts_up_to_the_first(s: Seq<char>, class: Class)
    ensures
        until(s, class) <= s.len(),
        none_of(s.take(until(s, class) as int), class),
        until(s, class) < s.len() ==> class.has(s[until(s, class) as int]),
    decreases s.len(),
{
    if s.len() > 0 && !class.has(s[0]) {
        law_until_counts_up_to_the_first(s.skip(1), class);
        let n = until(s, class) as int;
        assert forall|i: int| 0 <= i < n implies !class.has(#[trigger] s.take(n)[i]) by {
            if i > 0 {
                assert(s.skip(1).take(n - 1)[i - 1] == s[i]);
            }
        }
    }
}

/// A text is parted at the first such character: that is the first one, and
/// nothing is lost.
pub proof fn law_texts_are_parted_once(s: Seq<char>, c: char)
    ensures
        match split_once(s, c) {
            Some((a, b)) => s == a.push(c) + b && !a.contains(c),
            None => !s.contains(c),
        },
{
    law_until_counts_up_to_the_first(s, Class::One(c));
    let k = until(s, Class::One(c)) as int;
    match split_once(s, c) {
        Some((a, b)) => {
            assert(s =~= a.push(c) + b);
            assert forall|i: int| 0 <= i < a.len() implies a[i] != c by {
                assert(!Class::One(c).has(s.take(k)[i]));
            }
        },
        None => {
            assert forall|i: int| 0 <= i < s.len() implies s[i] != c by {
                assert(!Class::One(c).has(s.take(k)[i]));
            }
        },
    }
}

/// The first word is not empty and holds no white space; before it there is only
/// white space, and white space ends it, or the text does.
pub proof fn law_first_words_stand_alone(s: Seq<char>)
    ensures
        match first_word(s) {
            Some(w) => w.len() > 0 && none_of(w, Class::White) && exists|a: int|
                0 <= a && a + w.len() <= s.len() && w == #[trigger] s.subrange(a, a + w.len())
                    && all_of(s.take(a), Class::White) && (a + w.len() == s.len() || is_white(
                    s[a + w.len()],
                )),
            None => all_of(s, Class::White),
        },
{
    let t = skip_while(s, Class::White);
    law_skipping_stops_at_the_first_other(s, Class::White);
    law_until_counts_up_to_the_first(t, Class::White);
    let a = s.len() - t.len();
    if let Some(w) = first_word(s) {
        assert(w =~= s.subrange(a, a + w.len()));
        assert(w.len() < t.len() ==> t[w.len() as int] == s[a + w.len()]);
    } else {
        assert(s.take(a) =~= s);
    }
}

/// A prefix is taken off exactly where the text begins with it.
pub proof fn law_prefixes_are_taken_off(s: Seq<char>, prefix: Seq<char>)
    ensures
        strip_prefix(prefix + s, prefix) == Some(s),
        strip_prefix(s, prefix) matches Some(rest) ==> s == prefix + rest,
        strip_prefix(s, prefix) is None ==> s.len() < prefix.len() || s.take(prefix.len() as int)
            != prefix,
{
    assert((prefix + s).skip(prefix.len() as int) =~= s);
    assert(prefix.is_prefix_of(prefix + s)) by {
        assert((prefix + s).subrange(0, prefix.len() as int) =~= prefix);
    }
    if let Some(rest) = strip_prefix(s, prefix) {
        assert(s =~= prefix + rest);
    } else if s.len() >= prefix.len() {
        assert(s.take(prefix.len() as int) =~= s.subrange(0, prefix.len() as int));
    }
}

/// A pattern is found where it first stands, character by character, and in no
/// other case is nothing found.
pub proof fn law_searches_find_the_first_place(s: Seq<char>, pattern: Seq<char>, from: int)
    requires
        0 <= from,
    ensures
        match find_from(s, pattern, from) {
            Some(i) => from <= i && i + pattern.len() <= s.len() && s.subrange(
                i,
                i + pattern.len(),
            ) == pattern && forall|j: int|
                from <= j < i && j + pattern.len() <= s.len() ==> #[trigger] s.subrange(
                    j,
                    j + pattern.len(),
                ) != pattern,
            None => forall|j: int|
                from <= j && j + pattern.len() <= s.len() ==> #[trigger] s.subrange(
                    j,
                    j + pattern.len(),
                ) != pattern,
        },
    decreases s.len() + 1 - from,
{
    if from <= s.len() && !stands_at(s, pattern, from) {
        law_searches_find_the_first_place(s, pattern, from + 1);
    }
}

/// A text holds a pattern exactly when it is something, the pattern and something
/// else.
pub proof fn law_texts_hold_what_they_are_made_of(
    a: Seq<char>,
    pattern: Seq<char>,
    b: Seq<char>,
    s: Seq<char>,
)
    ensures
        contains(a + pattern + b, pattern),
        contains(s, pattern) ==> exists|i: int|
            0 <= i && i + pattern.len() <= s.len() && s == #[trigger] s.take(i) + pattern + s.skip(
                i + pattern.len(),
            ),
{
    let t = a + pattern + b;
    assert(t.subrange(a.len() as int, (a.len() + pattern.len()) as int) =~= pattern);
    assert(stands_at(t, pattern, a.len() as int));
    if contains(s, pattern) {
        let i = choose|i: int| stands_at(s, pattern, i);
        assert(s =~= s.take(i) + s.subrange(i, i + pattern.len()) + s.skip(i + pattern.len()));
    }
}

/// Joining texts puts what is between them between each two, and nothing before
/// the first or after the last.
pub proof fn law_joining_puts_the_same_between_each_two(
    a: Seq<Seq<char>>,
    b: Seq<Seq<char>>,
    item: Seq<char>,
    sep: Seq<char>,
)
    ensures
        joined(Seq::empty(), sep) == Seq::<char>::empty(),
        joined(seq![item], sep) == item,
        a.len() > 0 && b.len() > 0 ==> joined(a + b, sep) == joined(a, sep) + sep + joined(b, sep),
    decreases b.len(),
{
    if a.len() > 0 && b.len() > 0 {
        assert((a + b).drop_last() =~= a + b.drop_last());
        if b.len() == 1 {
            assert(a + b.drop_last() =~= a);
        } else {
            law_joining_puts_the_same_between_each_two(a, b.drop_last(), item, sep);
            assert(joined(a + b, sep) =~= joined(a, sep) + sep + joined(b, sep));
        }
    }
}

/// No piece of a text holds a character that it is split at, and the pieces with
/// that character between them are the text again.
pub proof fn law_pieces_make_up_the_text(s: Seq<char>, c: char)
    ensures
        split(s, Class::One(c)).len() > 0,
        joined(split(s, Class::One(c)), seq![c]) == s,
        forall|i: int|
            0 <= i < split(s, Class::One(c)).len() ==> !(#[trigger] split(
                s,
                Class::One(c),
            )[i]).contains(c),
    decreases s.len(),
{
    let class = Class::One(c);
    if s.len() > 0 {
        let init = s.drop_last();
        law_pieces_make_up_the_text(init, c);
        let before = split(init, class);
        let now = split(s, class);
        if s.last() == c {
            assert(now.drop_last() =~= before);
            assert(joined(now, seq![c]) =~= s);
            assert forall|i: int| 0 <= i < now.len() implies !(#[trigger] now[i]).contains(c) by {
                if i < before.len() {
                    assert(now[i] == before[i]);
                }
            }
        } else {
            let last = before.last().push(s.last());
            assert(now == before.drop_last().push(last));
            assert(now.drop_last() =~= before.drop_last());
            if before.len() == 1 {
                assert(joined(before, seq![c]) == before[0]);
                assert(joined(now, seq![c]) == now[0]);
            } else {
                assert(joined(before, seq![c]) == joined(before.drop_last(), seq![c]) + seq![c]
                    + before.last());
                assert(joined(now, seq![c]) == joined(before.drop_last(), seq![c]) + seq![c] + last);
            }
            assert(init.push(s.last()) =~= s);
            assert(joined(now, seq![c]) =~= joined(before, seq![c]).push(s.last()));
            assert forall|i: int| 0 <= i < now.len() implies !(#[trigger] now[i]).contains(c) by {
                if i < before.len() - 1 {
                    assert(now[i] == before[i]);
                } else {
                    assert(!before[before.len() - 1].contains(c));
                    assert forall|k: int| 0 <= k < last.len() implies last[k] != c by {
                        if k < last.len() - 1 {
                            assert(before.last()[k] == last[k]);
                            assert(before.last().contains(last[k]));
                        }
                    }
                }
            }
        }
    } else {
        assert(joined(split(s, class), seq![c]) =~= s);
    }
}

/// No piece holds a character of the class that it is split at.
pub proof fn law_pieces_hold_none_of_the_class(s: Seq<char>, class: Class)
    ensures
        forall|i: int|
            0 <= i < split(s, class).len() ==> none_of(#[trigger] split(s, class)[i], class),
        none_of(s, class) ==> split(s, class) == seq![s],
    decreases s.len(),
{
    if s.len() > 0 {
        let init = s.drop_last();
        law_pieces_hold_none_of_the_class(init, class);
        lemma_split_len(init, class);
        let before = split(init, class);
        let now = split(s, class);
        assert forall|i: int| 0 <= i < now.len() implies none_of(#[trigger] now[i], class) by {
            if i < before.len() - 1 {
                assert(now[i] == before[i]);
            } else if i == before.len() - 1 && class.has(s.last()) {
                assert(now[i] == before[i]);
            } else if i == before.len() - 1 {
                assert(none_of(before[i], class));
            }
        }
        if none_of(s, class) {
            assert(none_of(init, class)) by {
                assert forall|i: int| 0 <= i < init.len() implies !class.has(
                    #[trigger] init[i],
                ) by {
                    assert(!class.has(s[i]));
                }
            }
            assert(!class.has(s[s.len() - 1]));
            assert(before == seq![init]);
            assert(init.push(s.last()) =~= s);
            assert(now == before.drop_last().push(before.last().push(s.last())));
            assert(now =~= seq![s]);
        }
    } else {
        assert(s =~= Seq::empty());
    }
}

/// The lines of a text without carriage returns, with line feeds between them, are
/// the text again, but for one line feed at its end. No line holds a line feed, and
/// a carriage return before a line feed belongs to neither line.
pub proof fn law_lines_make_up_the_text(s: Seq<char>, t: Seq<char>)
    ensures
        !s.contains('\r') && s.len() > 0 && s.last() != '\n' ==> joined(lines(s), seq!['\n']) == s,
        !s.contains('\r') ==> joined(lines(s.push('\n')), seq!['\n']) == s,
        lines(Seq::<char>::empty()) == Seq::<Seq<char>>::empty(),
        forall|i: int| 0 <= i < lines(s).len() ==> !(#[trigger] lines(s)[i]).contains('\n'),
        !s.contains('\n') && !s.contains('\r') ==> lines(s.push('\r').push('\n') + t) == seq![s]
            + lines(t),
{
    let class = Class::One('\n');
    let pieces = split(s, class);
    law_pieces_make_up_the_text(s, '\n');
    assert forall|i: int| 0 <= i < lines(s).len() implies !(#[trigger] lines(s)[i]).contains(
        '\n',
    ) by {
        assert(!pieces[i].contains('\n'));
    }
    assert(lines(Seq::<char>::empty()) =~= Seq::<Seq<char>>::empty());
    if !s.contains('\r') {
        lemma_no_returns(s);
        if s.len() > 0 && s.last() != '\n' {
            assert(lines(s) =~= pieces);
        }
        assert(s.push('\n').drop_last() =~= s);
        assert(lines(s.push('\n')) =~= pieces);
    }
    if !s.contains('\n') && !s.contains('\r') {
        let r = s.push('\r');
        assert(none_of(r, class)) by {
            assert forall|i: int| 0 <= i < r.len() implies !class.has(#[trigger] r[i]) by {
                if i < s.len() {
                    assert(s.contains(s[i]));
                }
            }
        }
        law_pieces_hold_none_of_the_class(r, class);
        lemma_split_joined(r, '\n', t, class);
        lemma_split_len(t, class);
        assert(r.drop_last() =~= s);
        assert(lines(r.push('\n') + t) =~= seq![s] + lines(t));
    }
}

/// No piece of a text without carriage returns ends with one, and the last is not
/// empty where the text does not end with a line feed.
proof fn lemma_no_returns(s: Seq<char>)
    requires
        !s.contains('\r'),
    ensures
        forall|i: int|
            0 <= i < split(s, Class::One('\n')).len() ==> without_return(
                #[trigger] split(s, Class::One('\n'))[i],
            ) == split(s, Class::One('\n'))[i] && !split(s, Class::One('\n'))[i].contains('\r'),
        s.len() > 0 && s.last() != '\n' ==> split(s, Class::One('\n')).last().len() > 0,
    decreases s.len(),
{
    let class = Class::One('\n');
    if s.len() > 0 {
        let init = s.drop_last();
        assert(!init.contains('\r')) by {
            if init.contains('\r') {
                let k = choose|k: int| 0 <= k < init.len() && init[k] == '\r';
                assert(s[k] == '\r');
            }
        }
        assert(s.contains(s.last()));
        lemma_no_returns(init);
        lemma_split_len(init, class);
        let before = split(init, class);
        let now = split(s, class);
        assert forall|i: int| 0 <= i < now.len() implies !(#[trigger] now[i]).contains('\r')
            && without_return(now[i]) == now[i] by {
            if i < before.len() - 1 {
                assert(now[i] == before[i]);
            } else if i == before.len() - 1 {
                assert(!before[i].contains('\r'));
                if !class.has(s.last()) {
                    let last = before[i].push(s.last());
                    assert(now[i] == last);
                    assert forall|k: int| 0 <= k < last.len() implies last[k] != '\r' by {
                        if k < before[i].len() {
                            assert(before[i].contains(last[k]));
                        }
                    }
                } else {
                    assert(now[i] == before[i]);
                }
            }
            if now[i].len() > 0 {
                assert(now[i].contains(now[i].last()));
            }
        }
    }
}

/// A list of numbers stands in brackets, with a comma and a space between each two.
pub proof fn law_lists_of_numbers_are_bracketed(numbers: Seq<nat>, n: nat)
    ensures
        number_list(Seq::empty()) == "[]"@,
        number_list(seq![n]) == "["@ + decimal(n) + "]"@,
        numbers.len() > 0 ==> number_list(numbers.push(n)).drop_last() == number_list(
            numbers,
        ).drop_last() + ", "@ + decimal(n),
{
    reveal_strlit("[");
    reveal_strlit("]");
    reveal_strlit("[]");
    let show = |n: nat| decimal(n);
    let none: Seq<nat> = Seq::empty();
    assert(none.map_values(show) =~= Seq::empty());
    assert(number_list(none) =~= "[]"@);
    assert(seq![n].map_values(show) =~= seq![decimal(n)]);
    assert(number_list(seq![n]) =~= "["@ + decimal(n) + "]"@);
    if numbers.len() > 0 {
        let all = numbers.push(n).map_values(show);
        assert(all.drop_last() =~= numbers.map_values(show));
        assert(all.last() == decimal(n));
        assert(number_list(numbers.push(n)).drop_last() =~= number_list(numbers).drop_last() + ", "@
            + decimal(n));
    }
}

/// A class has the characters it is named for and no others: white space, one
/// character, either of two, or white space and one more.
pub proof fn law_classes_have_what_they_name(a: char, b: char, c: char)
    ensures
        Class::White.has(c) <==> is_white(c),
        Class::One(a).has(c) <==> c == a,
        Class::Two(a, b).has(c) <==> c == a || c == b,
        Class::WhiteOr(a).has(c) <==> is_white(c) || c == a,
{
}

} // verus!
