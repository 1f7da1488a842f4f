//! The textual forms of coordinates and orientations.
//!
//! A coordinate is written `(x, y)` with one-based indices; white space may
//! stand anywhere in it. An orientation is one of the words `Up`, `Down`,
//! `Left` and `Right`, with white space allowed around it.

use vstd::prelude::*;
use vstd::string::*;
use crate::geometry::{Coord, GameError, Orientation};

verus! {

/// Whether `c` is white space.
pub open spec fn is_space(c: char) -> bool {
    ||| ('\u{9}' <= c && c <= '\u{d}')
    ||| c == ' '
    ||| c == '\u{85}'
    ||| c == '\u{a0}'
    ||| c == '\u{1680}'
    ||| ('\u{2000}' <= c && c <= '\u{200a}')
    ||| c == '\u{2028}'
    ||| c == '\u{2029}'
    ||| c == '\u{202f}'
    ||| c == '\u{205f}'
    ||| c == '\u{3000}'
}

/// `s` without its white space.
pub open spec fn strip(s: Seq<char>) -> Seq<char>
    decreases s.len(),
{
    if s.len() == 0 {
        s
    } else if is_space(s.last()) {
        strip(s.drop_last())
    } else {
        strip(s.drop_last()).push(s.last())
    }
}

/// The value of a digit from `1` to `8`.
pub open spec fn digit_value(c: char) -> Option<int> {
    match c {
        '1' => Some(1),
        '2' => Some(2),
        '3' => Some(3),
        '4' => Some(4),
        '5' => Some(5),
        '6' => Some(6),
        '7' => Some(7),
        '8' => Some(8),
        _ => None,
    }
}

/// The digit that stands for `v`, for `v` from 1 to 8.
pub open spec fn digit_char(v: int) -> char {
    if v == 1 {
        '1'
    } else if v == 2 {
        '2'
    } else if v == 3 {
        '3'
    } else if v == 4 {
        '4'
    } else if v == 5 {
        '5'
    } else if v == 6 {
        '6'
    } else if v == 7 {
        '7'
    } else {
        '8'
    }
}

/// `a` without a leading plus sign.
pub open spec fn unsigned_part(a: Seq<char>) -> Seq<char> {
    if a.len() > 0 && a[0] == '+' {
        a.drop_first()
    } else {
        a
    }
}

/// The value of a decimal numeral between 1 and 8: an optional plus sign,
/// any number of zeros, and one digit from `1` to `8`.
pub open spec fn small_number(a: Seq<char>) -> Option<int> {
    let d = unsigned_part(a);
    if d.len() > 0 && (forall|k: int| 0 <= k < d.len() - 1 ==> d[k] == '0') {
        digit_value(d.last())
    } else {
        None
    }
}

/// Whether `t` is `(`, a numeral for `c.x + 1`, a comma at index `i`, a
/// numeral for `c.y + 1`, and `)`.
pub open spec fn splits_at(t: Seq<char>, i: int, c: Coord) -> bool {
    &&& 1 <= i < t.len() - 1
    &&& t[0] == '('
    &&& t[i] == ','
    &&& t.last() == ')'
    &&& small_number(t.subrange(1, i)) == Some(c.x + 1)
    &&& small_number(t.subrange(i + 1, t.len() - 1)) == Some(c.y + 1)
}

/// Whether the stripped text `t` denotes the coordinate `c`.
pub open spec fn reads_as(t: Seq<char>, c: Coord) -> bool {
    exists|i: int| #[trigger] splits_at(t, i, c)
}

/// The canonical text of an on-board coordinate.
pub open spec fn coord_text(c: Coord) -> Seq<char> {
    seq!['(', digit_char(c.x + 1), ',', ' ', digit_char(c.y + 1), ')']
}

/// Whether `s` is `tok` from index `a` on, with only white space around it.
pub open spec fn padded_at(s: Seq<char>, tok: Seq<char>, a: int) -> bool {
    &&& 0 <= a
    &&& a + tok.len() <= s.len()
    &&& s.subrange(a, a + tok.len()) == tok
    &&& forall|k: int| 0 <= k < a ==> is_space(#[trigger] s[k])
    &&& forall|k: int| a + tok.len() <= k < s.len() ==> is_space(#[trigger] s[k])
}

/// Whether `s` is `tok` with only white space around it.
pub open spec fn padded(s: Seq<char>, tok: Seq<char>) -> bool {
    exists|a: int| #[trigger] padded_at(s, tok, a)
}

/// The name of an orientation.
pub open spec fn word(o: Orientation) -> Seq<char> {
    match o {
        Orientation::Up => seq!['U', 'p'],
        Orientation::Down => seq!['D', 'o', 'w', 'n'],
        Orientation::Left => seq!['L', 'e', 'f', 't'],
        Orientation::Right => seq!['R', 'i', 'g', 'h', 't'],
    }
}

/// The orientation that the text `s` names, if any.
pub open spec fn orientation_of(s: Seq<char>) -> Option<Orientation> {
    if padded(s, word(Orientation::Up)) {
        Some(Orientation::Up)
    } else if padded(s, word(Orientation::Down)) {
        Some(Orientation::Down)
    } else if padded(s, word(Orientation::Left)) {
        Some(Orientation::Left)
    } else if padded(s, word(Orientation::Right)) {
        Some(Orientation::Right)
    } else {
        None
    }
}

/// Stripping a text that ends in `c` strips what comes before and keeps `c`
/// unless it is white space.
pub proof fn lemma_strip_push(s: Seq<char>, c: char)
    ensures
        strip(s.push(c)) == if is_space(c) {
            strip(s)
        } else {
            strip(s).push(c)
        },
{
    assert(s.push(c).drop_last() =~= s);
}

/// A numeral holds no comma.
pub proof fn lemma_number_has_no_comma(a: Seq<char>, k: int)
    requires
        small_number(a) is Some,
        0 <= k < a.len(),
    ensures
        a[k] != ',',
{
    let d = unsigned_part(a);
    if a[0] == '+' {
        if k > 0 {
            assert(a[k] == d[k - 1]);
            if k - 1 < d.len() - 1 {
                assert(d[k - 1] == '0');
            }
        }
    } else {
        if k < d.len() - 1 {
            assert(d[k] == '0');
        }
    }
}

/// A text denotes at most one coordinate.
pub proof fn lemma_reads_as_unique(t: Seq<char>, c: Coord, d: Coord)
    requires
        reads_as(t, c),
        reads_as(t, d),
    ensures
        c == d,
{
    let i = choose|i: int| #[trigger] splits_at(t, i, c);
    let j = choose|j: int| #[trigger] splits_at(t, j, d);
    if i < j {
        lemma_number_has_no_comma(t.subrange(1, j), i - 1);
    }
    if j < i {
        lemma_number_has_no_comma(t.subrange(1, i), j - 1);
    }
}

/// The canonical text of an on-board coordinate denotes that coordinate
/// and no other.
pub proof fn lemma_text_round_trip(c: Coord)
    requires
        c.valid(),
    ensures
        reads_as(strip(coord_text(c)), c),
        forall|d: Coord| #[trigger] reads_as(strip(coord_text(c)), d) ==> d == c,
{
    let a = digit_char(c.x + 1);
    let b = digit_char(c.y + 1);
    let e = Seq::<char>::empty();
    assert(coord_text(c) =~= e.push('(').push(a).push(',').push(' ').push(b).push(')'));
    lemma_strip_push(e, '(');
    lemma_strip_push(e.push('('), a);
    lemma_strip_push(e.push('(').push(a), ',');
    lemma_strip_push(e.push('(').push(a).push(','), ' ');
    lemma_strip_push(e.push('(').push(a).push(',').push(' '), b);
    lemma_strip_push(e.push('(').push(a).push(',').push(' ').push(b), ')');
    let t = strip(coord_text(c));
    assert(t =~= seq!['(', a, ',', b, ')']);
    assert(t.subrange(1, 2) =~= seq![a]);
    assert(t.subrange(3, 4) =~= seq![b]);
    assert(splits_at(t, 2, c));
    assert forall|d: Coord| #[trigger] reads_as(t, d) implies d == c by {
        lemma_reads_as_unique(t, c, d);
    }
}

/// A word without white space is itself with nothing around it, and no
/// other word.
pub proof fn lemma_word_names_itself(word: Seq<char>, other: Seq<char>)
    requires
        word.len() > 0,
        forall|k: int| 0 <= k < word.len() ==> !is_space(#[trigger] word[k]),
    ensures
        padded(word, word),
        padded(word, other) ==> other == word,
{
    assert(word.subrange(0, word.len() as int) =~= word);
    assert(padded_at(word, word, 0));
    if padded(word, other) {
        let b = choose|b: int| #[trigger] padded_at(word, other, b);
        if b > 0 {
            assert(is_space(word[0]));
        }
        if other.len() < word.len() {
            assert(is_space(word[other.len() as int]));
        }
        assert(other =~= word);
    }
}

/// An orientation's name is not empty and holds no white space.
pub proof fn lemma_word_plain(o: Orientation)
    ensures
        word(o).len() > 0,
        forall|k: int| 0 <= k < word(o).len() ==> !is_space(#[trigger] word(o)[k]),
{
    match o {
        Orientation::Up => {
            assert(!is_space('U') && !is_space('p'));
        },
        Orientation::Down => {
            assert(!is_space('D') && !is_space('o') && !is_space('w') && !is_space('n'));
        },
        Orientation::Left => {
            assert(!is_space('L') && !is_space('e') && !is_space('f') && !is_space('t'));
        },
        Orientation::Right => {
            assert(!is_space('R') && !is_space('i') && !is_space('g') && !is_space('h')
                && !is_space('t'));
        },
    }
}

/// Two orientations with the same name are the same.
pub proof fn lemma_words_differ(a: Orientation, b: Orientation)
    requires
        word(a) == word(b),
    ensures
        a == b,
{
    assert(word(a).len() == word(b).len());
    assert(word(a)[0] == word(b)[0]);
}

/// Reading the name of an orientation gives that orientation back.
pub proof fn lemma_name_round_trip(o: Orientation)
    ensures
        orientation_of(word(o)) == Some(o),
{
    lemma_word_plain(o);
    lemma_word_names_itself(word(o), word(o));
    lemma_word_names_itself(word(o), word(Orientation::Up));
    lemma_word_names_itself(word(o), word(Orientation::Down));
    lemma_word_names_itself(word(o), word(Orientation::Left));
    if padded(word(o), word(Orientation::Up)) {
        lemma_words_differ(o, Orientation::Up);
    }
    if padded(word(o), word(Orientation::Down)) {
        lemma_words_differ(o, Orientation::Down);
    }
    if padded(word(o), word(Orientation::Left)) {
        lemma_words_differ(o, Orientation::Left);
    }
}

/// Whether `c` is white space.
pub fn is_whitespace(c: char) -> (r: bool)
    ensures
        r == is_space(c),
{
    ('\u{9}' <= c && c <= '\u{d}') || c == ' ' || c == '\u{85}' || c == '\u{a0}' || c == '\u{1680}'
        || ('\u{2000}' <= c && c <= '\u{200a}') || c == '\u{2028}' || c == '\u{2029}' || c
        == '\u{202f}' || c == '\u{205f}' || c == '\u{3000}'
}

/// The characters of `s`.
pub fn chars_of(s: &str) -> (v: Vec<char>)
    ensures
        v@ == s@,
{
    let n = s.unicode_len();
    let mut v: Vec<char> = Vec::new();
    let mut i: usize = 0;
    while i < n
        invariant
            i <= n,
            n == s@.len(),
            v@ == s@.take(i as int),
        decreases n - i,
    {
        v.push(s.get_char(i));
        assert(v@ =~= s@.take(i + 1));
        i = i + 1;
    }
    assert(v@ =~= s@);
    v
}

/// The characters of `v` that are not white space.
pub fn strip_chars(v: &Vec<char>) -> (t: Vec<char>)
    ensures
        t@ == strip(v@),
{
    let n = v.len();
    let mut t: Vec<char> = Vec::new();
    let mut i: usize = 0;
    while i < n
        invariant
            i <= n,
            n == v@.len(),
            t@ == strip(v@.take(i as int)),
        decreases n - i,
    {
        let c = v[i];
        proof {
            assert(v@.take(i + 1) =~= v@.take(i as int).push(c));
            lemma_strip_push(v@.take(i as int), c);
        }
        if !is_whitespace(c) {
            t.push(c);
        }
        i = i + 1;
    }
    assert(v@.take(n as int) =~= v@);
    t
}

/// The value of a digit from `1` to `8`.
pub fn digit(c: char) -> (r: Option<usize>)
    ensures
        match r {
            Some(v) => digit_value(c) == Some(v as int) && 1 <= v <= 8,
            None => digit_value(c) is None,
        },
{
    match c {
        '1' => Some(1),
        '2' => Some(2),
        '3' => Some(3),
        '4' => Some(4),
        '5' => Some(5),
        '6' => Some(6),
        '7' => Some(7),
        '8' => Some(8),
        _ => None,
    }
}

/// Reads the characters of `t` from `from` up to `to` as a numeral between 1 and 8.
fn read_small(t: &Vec<char>, from: usize, to: usize) -> (r: Option<usize>)
    requires
        from <= to <= t@.len(),
    ensures
        match r {
            Some(v) => small_number(t@.subrange(from as int, to as int)) == Some(v as int) && 1
                <= v <= 8,
            None => small_number(t@.subrange(from as int, to as int)) is None,
        },
{
    let ghost a = t@.subrange(from as int, to as int);
    let mut p = from;
    if p < to && t[p] == '+' {
        p = p + 1;
    }
    let ghost d = unsigned_part(a);
    assert(d =~= t@.subrange(p as int, to as int));
    if p >= to {
        return None;
    }
    let mut k = p;
    while k < to - 1
        invariant
            p <= k <= to - 1,
            to <= t@.len(),
            from <= to,
            d == t@.subrange(p as int, to as int),
            d == unsigned_part(t@.subrange(from as int, to as int)),
            forall|j: int| 0 <= j < k - p ==> d[j] == '0',
        decreases to - k,
    {
        if t[k] != '0' {
            assert(d[k - p] != '0');
            return None;
        }
        k = k + 1;
    }
    assert(d.last() == t@[to - 1]);
    digit(t[to - 1])
}

/// Reads a coordinate from its text.
///
/// With all white space removed the text must be `(`, a numeral from 1 to
/// 8, a comma, a second such numeral, and `)`. The indices of the result
/// are zero-based.
pub fn parse_coord(s: &str) -> (r: Result<Coord, GameError>)
    ensures
        match r {
            Ok(c) => c.valid() && reads_as(strip(s@), c),
            Err(e) => e == GameError::ParseError && forall|c: Coord| !reads_as(strip(s@), c),
        },
{
    let all = chars_of(s);
    let t = strip_chars(&all);
    let n = t.len();
    if n < 3 || t[0] != '(' || t[n - 1] != ')' {
        assert forall|c: Coord| !reads_as(t@, c) by {
            assert forall|i: int| !#[trigger] splits_at(t@, i, c) by {}
        }
        return Err(GameError::ParseError);
    }
    let mut i: usize = 1;
    while i < n - 1 && t[i] != ','
        invariant
            1 <= i <= n - 1,
            n == t@.len(),
            forall|j: int| 1 <= j < i ==> t@[j] != ',',
        decreases n - i,
    {
        i = i + 1;
    }
    if i >= n - 1 {
        assert forall|c: Coord| !reads_as(t@, c) by {
            assert forall|j: int| !#[trigger] splits_at(t@, j, c) by {}
        }
        return Err(GameError::ParseError);
    }
    let first = read_small(&t, 1, i);
    let second = read_small(&t, i + 1, n - 1);
    match (first, second) {
        (Some(x), Some(y)) => {
            let c = Coord { x: x - 1, y: y - 1 };
            assert(splits_at(t@, i as int, c));
            Ok(c)
        },
        _ => {
            assert forall|c: Coord| !reads_as(t@, c) by {
                assert forall|j: int| !#[trigger] splits_at(t@, j, c) by {
                    if splits_at(t@, j, c) {
                        if j > i {
                            lemma_number_has_no_comma(t@.subrange(1, j), i - 1);
                        }
                    }
                }
            }
            Err(GameError::ParseError)
        },
    }
}

/// The one-character text of a digit from 1 to 8.
fn digit_str(v: usize) -> (s: &'static str)
    requires
        1 <= v <= 8,
    ensures
        s@ == seq![digit_char(v as int)],
{
    proof {
        reveal_strlit("1");
        reveal_strlit("2");
        reveal_strlit("3");
        reveal_strlit("4");
        reveal_strlit("5");
        reveal_strlit("6");
        reveal_strlit("7");
        reveal_strlit("8");
    }
    let s = if v == 1 {
        "1"
    } else if v == 2 {
        "2"
    } else if v == 3 {
        "3"
    } else if v == 4 {
        "4"
    } else if v == 5 {
        "5"
    } else if v == 6 {
        "6"
    } else if v == 7 {
        "7"
    } else {
        "8"
    };
    assert(s@ =~= seq![digit_char(v as int)]);
    s
}

impl Coord {
    /// The text `(x, y)` of an on-board coordinate, with one-based indices.
    pub fn to_text(&self) -> (r: Option<String>)
        ensures
            self.valid() ==> r is Some && r->Some_0@ == coord_text(*self),
            !self.valid() ==> r is None,
    {
        if !self.in_board() {
            return None;
        }
        proof {
            reveal_strlit("(");
            reveal_strlit(", ");
            reveal_strlit(")");
        }
        let mut s = "(".to_owned();
        s.append(digit_str(self.x + 1));
        s.append(", ");
        s.append(digit_str(self.y + 1));
        s.append(")");
        assert(s@ =~= coord_text(*self));
        Some(s)
    }
}

impl core::str::FromStr for Coord {
    type Err = GameError;

    /// Reads a coordinate from its text, as `parse_coord` does.
    fn from_str(s: &str) -> (r: Result<Coord, GameError>)
        ensures
            match r {
                Ok(c) => c.valid() && reads_as(strip(s@), c),
                Err(e) => e == GameError::ParseError && forall|c: Coord| !reads_as(strip(s@), c),
            },
    {
        parse_coord(s)
    }
}

/// Whether `t` is `tok` with only white space around it.
fn is_padded(t: &Vec<char>, tok: &Vec<char>) -> (r: bool)
    requires
        tok@.len() > 0,
        !is_space(tok@[0]),
    ensures
        r == padded(t@, tok@),
{
    let n = t.len();
    let m = tok.len();
    let mut a: usize = 0;
    while a < n && is_whitespace(t[a])
        invariant
            a <= n,
            n == t@.len(),
            forall|k: int| 0 <= k < a ==> is_space(#[trigger] t@[k]),
        decreases n - a,
    {
        a = a + 1;
    }
    assert forall|b: int| #[trigger] padded_at(t@, tok@, b) implies b == a by {
        assert(t@.subrange(b, b + tok@.len())[0] == tok@[0]);
        assert(!is_space(t@[b]));
        if b > a {
            assert(is_space(t@[a as int]));
        }
    }
    if n - a < m {
        return false;
    }
    let mut k: usize = 0;
    while k < m
        invariant
            k <= m,
            m == tok@.len(),
            n == t@.len(),
            a + m <= n,
            forall|j: int| 0 <= j < k ==> t@[a + j] == tok@[j],
            forall|b: int| #[trigger] padded_at(t@, tok@, b) ==> b == a,
        decreases m - k,
    {
        if t[a + k] != tok[k] {
            assert(t@.subrange(a as int, a + tok@.len())[k as int] == t@[a + k]);
            return false;
        }
        k = k + 1;
    }
    let mut j: usize = a + m;
    while j < n
        invariant
            a + m <= j <= n,
            n == t@.len(),
            m == tok@.len(),
            forall|i: int| a + m <= i < j ==> is_space(#[trigger] t@[i]),
            forall|b: int| #[trigger] padded_at(t@, tok@, b) ==> b == a,
        decreases n - j,
    {
        if !is_whitespace(t[j]) {
            return false;
        }
        j = j + 1;
    }
    assert(t@.subrange(a as int, a + tok@.len()) =~= tok@);
    assert(padded_at(t@, tok@, a as int));
    true
}

impl Orientation {
    /// Reads an orientation from its name, which white space may surround.
    pub fn parse(s: &str) -> (r: Result<Orientation, GameError>)
        ensures
            match orientation_of(s@) {
                Some(o) => r == Ok::<Orientation, GameError>(o),
                None => r == Err::<Orientation, GameError>(GameError::ParseError),
            },
    {
        let t = chars_of(s);
        if is_padded(&t, &vec!['U', 'p']) {
            Ok(Orientation::Up)
        } else if is_padded(&t, &vec!['D', 'o', 'w', 'n']) {
            Ok(Orientation::Down)
        } else if is_padded(&t, &vec!['L', 'e', 'f', 't']) {
            Ok(Orientation::Left)
        } else if is_padded(&t, &vec!['R', 'i', 'g', 'h', 't']) {
            Ok(Orientation::Right)
        } else {
            Err(GameError::ParseError)
        }
    }

    /// The name of the orientation.
    pub fn name(self) -> (s: &'static str)
        ensures
            s@ == word(self),
    {
        proof {
            reveal_strlit("Up");
            reveal_strlit("Down");
            reveal_strlit("Left");
            reveal_strlit("Right");
            assert("Up"@ =~= word(Orientation::Up));
            assert("Down"@ =~= word(Orientation::Down));
            assert("Left"@ =~= word(Orientation::Left));
            assert("Right"@ =~= word(Orientation::Right));
        }
        let s = match self {
            Orientation::Up => "Up",
            Orientation::Down => "Down",
            Orientation::Left => "Left",
            Orientation::Right => "Right",
        };
        s
    }
}

} // verus!
