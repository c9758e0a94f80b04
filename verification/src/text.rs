//! Operations on text, stated over sequences of characters.

use vstd::prelude::*;
use vstd::string::*;
use vstd::std_specs::iter::IteratorSpec;

verus! {

/// `String::push` appends one character.
pub assume_specification[ String::push ](s: &mut String, c: char)
    ensures
        final(s)@ == old(s)@.push(c),
;

/// Whether two texts hold the same characters.
pub fn str_eq(a: &str, b: &str) -> (r: bool)
    ensures
        r == (a@ == b@),
{
    let x = a.to_owned();
    let y = b.to_owned();
    x == y
}

/// The two texts, one after the other.
pub fn concat2(a: &str, b: &str) -> (r: String)
    ensures
        r@ == a@ + b@,
{
    let mut out = a.to_owned();
    out.append(b);
    out
}

/// The three texts, one after the other.
pub fn concat3(a: &str, b: &str, c: &str) -> (r: String)
    ensures
        r@ == a@ + b@ + c@,
{
    let mut out = a.to_owned();
    out.append(b);
    out.append(c);
    out
}

/// The four texts, one after the other.
pub fn concat4(a: &str, b: &str, c: &str, d: &str) -> (r: String)
    ensures
        r@ == a@ + b@ + c@ + d@,
{
    let mut out = a.to_owned();
    out.append(b);
    out.append(c);
    out.append(d);
    out
}

/// The characters of a text, in order.
pub fn to_chars(s: &str) -> (v: Vec<char>)
    ensures
        v@ == s@,
{
    broadcast use vstd::string::group_string_axioms;

    let n = s.unicode_len();
    let mut it = s.chars();
    let mut v: Vec<char> = Vec::new();
    assert(v@ + it.remaining() =~= s@);
    loop
        invariant
            n == s@.len(),
            v@ + it.remaining() == s@,
        decreases n - v.len(),
    {
        let ghost before = it.remaining();
        let ghost so_far = v@;
        match it.next() {
            Some(c) => {
                v.push(c);
                assert(v@ + it.remaining() =~= so_far + before);
            },
            None => {
                assert(v@ + it.remaining() =~= v@);
                return v;
            },
        }
    }
}

/// The text made of the given characters.
pub fn from_chars(v: &Vec<char>) -> (s: String)
    ensures
        s@ == v@,
{
    let mut out = String::new();
    let mut i: usize = 0;
    while i < v.len()
        invariant
            i <= v.len(),
            out@ == v@.subrange(0, i as int),
        decreases v.len() - i,
    {
        out.push(v[i]);
        i = i + 1;
        assert(out@ =~= v@.subrange(0, i as int));
    }
    assert(v@.subrange(0, v.len() as int) =~= v@);
    out
}


/// The characters of `v` from `from` up to `to`.
pub fn slice_chars(v: &Vec<char>, from: usize, to: usize) -> (r: Vec<char>)
    requires
        from <= to <= v.len(),
    ensures
        r@ == v@.subrange(from as int, to as int),
{
    let mut out: Vec<char> = Vec::new();
    let mut i: usize = from;
    while i < to
        invariant
            from <= i <= to <= v.len(),
            out@ == v@.subrange(from as int, i as int),
        decreases to - i,
    {
        out.push(v[i]);
        i = i + 1;
        assert(out@ =~= v@.subrange(from as int, i as int));
    }
    out
}

/// Appends the characters of `more` to `out`.
pub fn extend_chars(out: &mut Vec<char>, more: &Vec<char>)
    ensures
        final(out)@ == old(out)@ + more@,
{
    let mut i: usize = 0;
    while i < more.len()
        invariant
            i <= more.len(),
            out@ == old(out)@ + more@.subrange(0, i as int),
        decreases more.len() - i,
    {
        out.push(more[i]);
        i = i + 1;
        assert(out@ =~= old(out)@ + more@.subrange(0, i as int));
    }
    assert(more@.subrange(0, more.len() as int) =~= more@);
}

/// Whether `c` occurs in `s`.
pub fn contains_char(s: &Vec<char>, c: char) -> (r: bool)
    ensures
        r == s@.contains(c),
{
    let mut i: usize = 0;
    while i < s.len()
        invariant
            i <= s.len(),
            forall|j: int| 0 <= j < i ==> s@[j] != c,
        decreases s.len() - i,
    {
        if s[i] == c {
            return true;
        }
        i = i + 1;
    }
    false
}

/// Whether `needle` stands in `hay` at position `i`.
pub open spec fn matches_at(hay: Seq<char>, needle: Seq<char>, i: int) -> bool {
    &&& 0 <= i
    &&& i + needle.len() <= hay.len()
    &&& hay.subrange(i, i + needle.len()) == needle
}

/// The first position at or after `i` where `needle` stands in `hay`.
pub open spec fn find_from(hay: Seq<char>, needle: Seq<char>, i: int) -> Option<int>
    decreases hay.len() + 1 - i,
{
    if i < 0 || i + needle.len() > hay.len() {
        None
    } else if matches_at(hay, needle, i) {
        Some(i)
    } else {
        find_from(hay, needle, i + 1)
    }
}

/// Whether `needle` occurs somewhere in `hay`.
pub open spec fn contains_sub(hay: Seq<char>, needle: Seq<char>) -> bool {
    find_from(hay, needle, 0) is Some
}

/// What `find_from` finds is the first match, and it finds one if there is any.
pub proof fn lemma_find_from(hay: Seq<char>, needle: Seq<char>, i: int)
    requires
        0 <= i,
    ensures
        match find_from(hay, needle, i) {
            Some(k) => i <= k && matches_at(hay, needle, k) && forall|j: int|
                i <= j < k ==> !matches_at(hay, needle, j),
            None => forall|j: int| i <= j ==> !matches_at(hay, needle, j),
        },
    decreases hay.len() + 1 - i,
{
    if i + needle.len() > hay.len() {
    } else if matches_at(hay, needle, i) {
    } else {
        lemma_find_from(hay, needle, i + 1);
    }
}

/// Whether `needle` stands in `hay` at position `i`.
pub fn starts_at(hay: &Vec<char>, needle: &Vec<char>, i: usize) -> (r: bool)
    ensures
        r == matches_at(hay@, needle@, i as int),
{
    if i > hay.len() || needle.len() > hay.len() - i {
        return false;
    }
    let mut k: usize = 0;
    while k < needle.len()
        invariant
            i + needle.len() <= hay.len(),
            k <= needle.len(),
            forall|j: int| 0 <= j < k ==> hay@[i + j] == needle@[j],
        decreases needle.len() - k,
    {
        if hay[i + k] != needle[k] {
            assert(hay@.subrange(i as int, i + needle.len())[k as int] == hay@[i + k]);
            return false;
        }
        k = k + 1;
    }
    assert(hay@.subrange(i as int, i + needle.len()) =~= needle@);
    true
}

/// The first position at or after `start` where `needle` stands in `hay`.
pub fn find_sub(hay: &Vec<char>, needle: &Vec<char>, start: usize) -> (r: Option<usize>)
    ensures
        match r {
            Some(k) => find_from(hay@, needle@, start as int) == Some(k as int),
            None => find_from(hay@, needle@, start as int) is None,
        },
{
    let mut i: usize = start;
    while i <= hay.len() && needle.len() <= hay.len() - i
        invariant
            start <= i,
            find_from(hay@, needle@, start as int) == find_from(hay@, needle@, i as int),
        decreases hay.len() + 1 - i,
    {
        if starts_at(hay, needle, i) {
            return Some(i);
        }
        assert(i < hay.len()) by {
            if i == hay.len() {
                assert(hay@.subrange(i as int, i as int) =~= needle@);
            }
        }
        i = i + 1;
    }
    None
}

/// `s` with every occurrence of `from` replaced by `to`, reading from
/// position `i` on, left to right, matches not overlapping. An empty
/// `from` matches nowhere.
pub open spec fn replace_from(s: Seq<char>, from: Seq<char>, to: Seq<char>, i: int) -> Seq<char>
    decreases s.len() - i,
{
    if i < 0 || i >= s.len() {
        Seq::empty()
    } else if from.len() > 0 && matches_at(s, from, i) {
        to + replace_from(s, from, to, i + from.len())
    } else {
        seq![s[i]] + replace_from(s, from, to, i + 1)
    }
}

/// `s` with every occurrence of `from` replaced by `to`.
pub open spec fn replace_all(s: Seq<char>, from: Seq<char>, to: Seq<char>) -> Seq<char> {
    replace_from(s, from, to, 0)
}

/// Replaces every occurrence of `from` in `s` by `to`.
pub fn replace_chars(s: &Vec<char>, from: &Vec<char>, to: &Vec<char>) -> (r: Vec<char>)
    ensures
        r@ == replace_all(s@, from@, to@),
{
    let mut out: Vec<char> = Vec::new();
    let mut i: usize = 0;
    while i < s.len()
        invariant
            i <= s.len(),
            out@ + replace_from(s@, from@, to@, i as int) == replace_all(s@, from@, to@),
        decreases s.len() - i,
    {
        let ghost before = out@;
        if from.len() > 0 && starts_at(s, from, i) {
            extend_chars(&mut out, to);
            assert(out@ + replace_from(s@, from@, to@, i + from.len()) =~= before + replace_from(
                s@,
                from@,
                to@,
                i as int,
            ));
            i = i + from.len();
        } else {
            out.push(s[i]);
            assert(out@ + replace_from(s@, from@, to@, i + 1) =~= before + replace_from(
                s@,
                from@,
                to@,
                i as int,
            ));
            i = i + 1;
        }
    }
    assert(out@ + Seq::<char>::empty() =~= out@);
    out
}

/// Replaces every occurrence of `from` in `s` by `to`.
pub fn replace_str(s: &str, from: &str, to: &str) -> (r: String)
    ensures
        r@ == replace_all(s@, from@, to@),
{
    let sv = to_chars(s);
    let fv = to_chars(from);
    let tv = to_chars(to);
    let out = replace_chars(&sv, &fv, &tv);
    from_chars(&out)
}

/// Whether `needle` occurs somewhere in `hay`.
pub fn str_contains(hay: &str, needle: &str) -> (r: bool)
    ensures
        r == contains_sub(hay@, needle@),
{
    let hv = to_chars(hay);
    let nv = to_chars(needle);
    find_sub(&hv, &nv, 0).is_some()
}

/// The texts of `parts` with `sep` between each two neighbours.
pub open spec fn join(parts: Seq<Seq<char>>, sep: Seq<char>) -> Seq<char>
    decreases parts.len(),
{
    if parts.len() == 0 {
        Seq::empty()
    } else if parts.len() == 1 {
        parts[0]
    } else {
        join(parts.drop_last(), sep) + sep + parts.last()
    }
}

/// The views of a list of texts.
pub open spec fn views(parts: Seq<String>) -> Seq<Seq<char>> {
    parts.map_values(|s: String| s@)
}

/// Joins `parts` with `sep` between each two neighbours.
pub fn join_strings(parts: &Vec<String>, sep: &str) -> (r: String)
    ensures
        r@ == join(views(parts@), sep@),
{
    let mut out = String::new();
    let mut i: usize = 0;
    while i < parts.len()
        invariant
            i <= parts.len(),
            out@ == join(views(parts@).subrange(0, i as int), sep@),
        decreases parts.len() - i,
    {
        let ghost prefix = views(parts@).subrange(0, i as int);
        let ghost next = views(parts@).subrange(0, i + 1);
        assert(next.drop_last() =~= prefix);
        assert(next.last() == parts@[i as int]@);
        if i > 0 {
            out.append(sep);
        }
        out.append(parts[i].as_str());
        assert(out@ =~= join(next, sep@)) by {
            if i == 0 {
                assert(join(prefix, sep@) =~= Seq::<char>::empty());
            }
        }
        i = i + 1;
    }
    assert(views(parts@).subrange(0, parts.len() as int) =~= views(parts@));
    out
}

/// The character of a decimal digit.
pub open spec fn digit_char(d: int) -> char {
    if d == 0 {
        '0'
    } else if d == 1 {
        '1'
    } else if d == 2 {
        '2'
    } else if d == 3 {
        '3'
    } else if d == 4 {
        '4'
    } else if d == 5 {
        '5'
    } else if d == 6 {
        '6'
    } else if d == 7 {
        '7'
    } else if d == 8 {
        '8'
    } else {
        '9'
    }
}

/// A natural number in decimal, without leading zeros.
pub open spec fn decimal(n: nat) -> Seq<char>
    decreases n,
{
    if n < 10 {
        seq![digit_char(n as int)]
    } else {
        decimal(n / 10).push(digit_char((n % 10) as int))
    }
}

/// The character of a decimal digit.
fn digit_of(d: usize) -> (c: char)
    requires
        d < 10,
    ensures
        c == digit_char(d as int),
{
    if d == 0 {
        '0'
    } else if d == 1 {
        '1'
    } else if d == 2 {
        '2'
    } else if d == 3 {
        '3'
    } else if d == 4 {
        '4'
    } else if d == 5 {
        '5'
    } else if d == 6 {
        '6'
    } else if d == 7 {
        '7'
    } else if d == 8 {
        '8'
    } else {
        '9'
    }
}

/// Writes a number in decimal.
pub fn decimal_string(n: usize) -> (r: String)
    ensures
        r@ == decimal(n as nat),
    decreases n,
{
    if n < 10 {
        let mut out = String::new();
        out.push(digit_of(n));
        assert(out@ =~= seq![digit_char(n as int)]);
        out
    } else {
        let mut out = decimal_string(n / 10);
        out.push(digit_of(n % 10));
        out
    }
}

/// An ASCII capital letter becomes the small one; every other character stays.
pub open spec fn ascii_lower(c: char) -> char {
    if 'A' <= c && c <= 'Z' {
        ((c as u8) + 32) as char
    } else {
        c
    }
}

/// An ASCII small letter becomes the capital one; every other character stays.
pub open spec fn ascii_upper(c: char) -> char {
    if 'a' <= c && c <= 'z' {
        ((c as u8) - 32) as char
    } else {
        c
    }
}

/// The small letter for an ASCII capital, the character itself otherwise.
pub fn to_ascii_lower(c: char) -> (r: char)
    ensures
        r == ascii_lower(c),
{
    if 'A' <= c && c <= 'Z' {
        ((c as u8) + 32) as char
    } else {
        c
    }
}

/// The capital letter for an ASCII small letter, the character itself otherwise.
pub fn to_ascii_upper(c: char) -> (r: char)
    ensures
        r == ascii_upper(c),
{
    if 'a' <= c && c <= 'z' {
        ((c as u8) - 32) as char
    } else {
        c
    }
}

/// A text with its ASCII small letters made capital.
pub open spec fn upper(s: Seq<char>) -> Seq<char> {
    s.map_values(|c: char| ascii_upper(c))
}

/// Makes the ASCII small letters of a text capital.
pub fn upper_chars(s: &Vec<char>) -> (r: Vec<char>)
    ensures
        r@ == upper(s@),
{
    let mut out: Vec<char> = Vec::new();
    let mut i: usize = 0;
    while i < s.len()
        invariant
            i <= s.len(),
            out@ == upper(s@.subrange(0, i as int)),
        decreases s.len() - i,
    {
        out.push(to_ascii_upper(s[i]));
        i = i + 1;
        assert(out@ =~= upper(s@.subrange(0, i as int)));
    }
    assert(s@.subrange(0, s.len() as int) =~= s@);
    out
}

/// Whether a character is ASCII white space.
pub open spec fn is_space(c: char) -> bool {
    c == ' ' || c == '\t' || c == '\n' || c == '\r' || c == '\x0B' || c == '\x0C'
}

/// Whether a character is ASCII white space.
pub fn is_space_char(c: char) -> (r: bool)
    ensures
        r == is_space(c),
{
    c == ' ' || c == '\t' || c == '\n' || c == '\r' || c == '\x0B' || c == '\x0C'
}

/// Whether a character is an ASCII digit.
pub open spec fn is_digit(c: char) -> bool {
    '0' <= c && c <= '9'
}

/// Whether a character is an ASCII letter.
pub open spec fn is_letter(c: char) -> bool {
    ('a' <= c && c <= 'z') || ('A' <= c && c <= 'Z')
}


/// The first position at or after `from` at which `names` holds `name`.
pub open spec fn first_named(names: Seq<Seq<char>>, name: Seq<char>, from: int) -> Option<int>
    decreases names.len() - from,
{
    if from < 0 || from >= names.len() {
        None
    } else if names[from] == name {
        Some(from)
    } else {
        first_named(names, name, from + 1)
    }
}

/// What `first_named` finds holds the name and nothing before it does; it
/// finds something whenever the name is there.
pub proof fn lemma_first_named(names: Seq<Seq<char>>, name: Seq<char>, from: int)
    requires
        0 <= from,
    ensures
        match first_named(names, name, from) {
            Some(k) => from <= k < names.len() && names[k] == name && forall|j: int|
                from <= j < k ==> names[j] != name,
            None => forall|j: int| from <= j < names.len() ==> names[j] != name,
        },
    decreases names.len() - from,
{
    if from < names.len() && names[from] != name {
        lemma_first_named(names, name, from + 1);
    }
}


/// A text without the ASCII white space at its end.
pub open spec fn trim_end(s: Seq<char>) -> Seq<char>
    decreases s.len(),
{
    if s.len() > 0 && is_space(s.last()) {
        trim_end(s.drop_last())
    } else {
        s
    }
}

/// Removes the ASCII white space at the end of a text.
pub fn trim_end_str(s: &str) -> (r: String)
    ensures
        r@ == trim_end(s@),
{
    let chars = to_chars(s);
    let mut n: usize = chars.len();
    assert(chars@.subrange(0, chars.len() as int) =~= chars@);
    while n > 0 && is_space_char(chars[n - 1])
        invariant
            n <= chars.len(),
            trim_end(chars@) == trim_end(chars@.subrange(0, n as int)),
        decreases n,
    {
        assert(chars@.subrange(0, n as int).drop_last() =~= chars@.subrange(0, n - 1));
        n = n - 1;
    }
    let kept = slice_chars(&chars, 0, n);
    from_chars(&kept)
}

/// The numbers from 1 to `n`, each in decimal.
pub open spec fn positions(n: nat) -> Seq<Seq<char>> {
    Seq::new(n, |i: int| decimal((i + 1) as nat))
}

/// The first character of a name as a text of its own, or `t` for the
/// empty name.
pub open spec fn initial(name: Seq<char>) -> Seq<char> {
    if name.len() == 0 {
        "t"@
    } else {
        seq![name[0]]
    }
}

/// The first character of a name as a text of its own, or `t` for the
/// empty name.
pub fn initial_of(name: &str) -> (r: String)
    ensures
        r@ == initial(name@),
{
    if name.unicode_len() == 0 {
        "t".to_owned()
    } else {
        let mut out = String::new();
        out.push(name.get_char(0));
        assert(out@ =~= seq![name@[0]]);
        out
    }
}


/// Whether `name` is one of `list`.
pub fn contains_name(list: &Vec<String>, name: &str) -> (r: bool)
    ensures
        r == views(list@).contains(name@),
{
    let mut i: usize = 0;
    while i < list.len()
        invariant
            i <= list.len(),
            forall|j: int| 0 <= j < i ==> views(list@)[j] != name@,
        decreases list.len() - i,
    {
        if str_eq(list[i].as_str(), name) {
            assert(views(list@)[i as int] == name@);
            return true;
        }
        i = i + 1;
    }
    false
}


/// Distinct whole numbers from `lo` up to `hi - 1` are at most `hi - lo`.
pub proof fn lemma_distinct_in_range(s: Seq<int>, lo: int, hi: int)
    requires
        lo <= hi,
        s.no_duplicates(),
        forall|i: int| 0 <= i < s.len() ==> lo <= #[trigger] s[i] < hi,
    ensures
        s.len() <= hi - lo,
{
    s.unique_seq_to_set();
    vstd::set_lib::lemma_int_range(lo, hi);
    assert(s.to_set().subset_of(vstd::set_lib::set_int_range(lo, hi))) by {
        assert forall|x: int| s.to_set().contains(x) implies vstd::set_lib::set_int_range(
            lo,
            hi,
        ).contains(x) by {
            let i = choose|i: int| 0 <= i < s.len() && s[i] == x;
        }
    }
    vstd::set_lib::lemma_len_subset(s.to_set(), vstd::set_lib::set_int_range(lo, hi));
}

/// Distinct names that all occur in a list are at most as many as the list
/// is long.
pub proof fn lemma_distinct_names(s: Seq<Seq<char>>, all: Seq<Seq<char>>)
    requires
        s.no_duplicates(),
        forall|i: int| 0 <= i < s.len() ==> all.contains(#[trigger] s[i]),
    ensures
        s.len() <= all.len(),
{
    let places = Seq::new(s.len(), |i: int| choose|j: int| 0 <= j < all.len() && all[j] == s[i]);
    assert forall|i: int| 0 <= i < places.len() implies 0 <= #[trigger] places[i] < all.len()
        && all[places[i]] == s[i] by {
        assert(all.contains(s[i]));
    }
    assert(places.no_duplicates()) by {
        assert forall|i: int, j: int|
            0 <= i < places.len() && 0 <= j < places.len() && i != j implies places[i]
            != places[j] by {
            assert(all[places[i]] == s[i]);
            assert(all[places[j]] == s[j]);
        }
    }
    lemma_distinct_in_range(places, 0, all.len() as int);
}


/// Writes a number in decimal.
pub fn decimal_string_wide(n: u128) -> (r: String)
    ensures
        r@ == decimal(n as nat),
    decreases n,
{
    if n < 10 {
        let mut out = String::new();
        out.push(digit_of(n as usize));
        assert(out@ =~= seq![digit_char(n as int)]);
        out
    } else {
        let mut out = decimal_string_wide(n / 10);
        out.push(digit_of((n % 10) as usize));
        out
    }
}

/// The first character of a name in lower case, as a text of its own, or
/// `t` for the empty name.
pub open spec fn lower_initial(name: Seq<char>) -> Seq<char> {
    if name.len() == 0 {
        "t"@
    } else {
        seq![ascii_lower(name[0])]
    }
}

/// The first character of a name in lower case, or `t` for the empty name.
pub fn lower_initial_of(name: &str) -> (r: String)
    ensures
        r@ == lower_initial(name@),
{
    if name.unicode_len() == 0 {
        "t".to_owned()
    } else {
        let mut out = String::new();
        out.push(to_ascii_lower(name.get_char(0)));
        assert(out@ =~= seq![ascii_lower(name@[0])]);
        out
    }
}

/// `base` with the first of the numbers `k`, `k + 1`, ... behind it that
/// gives a name not in `taken`; after `tries` numbers the next one is
/// taken whatever it gives.
pub open spec fn numbered(taken: Seq<Seq<char>>, base: Seq<char>, k: nat, tries: nat) -> Seq<char>
    decreases tries,
{
    if tries == 0 || !taken.contains(base + decimal(k)) {
        base + decimal(k)
    } else {
        numbered(taken, base, k + 1, (tries - 1) as nat)
    }
}

/// An alias for the model `name` that is not in `taken`: the first
/// character of the name in lower case, with a number from 2 on behind it
/// where that is needed.
pub open spec fn fresh_alias(taken: Seq<Seq<char>>, name: Seq<char>) -> Seq<char> {
    if !taken.contains(lower_initial(name)) {
        lower_initial(name)
    } else {
        numbered(taken, lower_initial(name), 2, taken.len())
    }
}

/// An alias for the model `name` that is not in `taken`.
pub fn fresh_alias_for(taken: &Vec<String>, name: &str) -> (r: String)
    ensures
        r@ == fresh_alias(views(taken@), name@),
{
    let base = lower_initial_of(name);
    if !contains_name(taken, base.as_str()) {
        return base;
    }
    let mut tries: usize = taken.len();
    let mut k: u128 = 2;
    loop
        invariant
            tries <= taken.len(),
            k == 2 + (taken.len() - tries),
            base@ == lower_initial(name@),
            views(taken@).contains(base@),
            views(taken@).len() == taken@.len(),
            numbered(views(taken@), base@, 2, taken@.len()) == numbered(
                views(taken@),
                base@,
                k as nat,
                tries as nat,
            ),
        decreases tries,
    {
        let candidate = concat2(base.as_str(), decimal_string_wide(k).as_str());
        if tries == 0 || !contains_name(taken, candidate.as_str()) {
            return candidate;
        }
        tries = tries - 1;
        k = k + 1;
    }
}


/// A text with its ASCII capital letters made small.
pub open spec fn lower(s: Seq<char>) -> Seq<char> {
    s.map_values(|c: char| ascii_lower(c))
}

/// Makes the ASCII capital letters of a text small.
pub fn lower_chars(s: &Vec<char>) -> (r: Vec<char>)
    ensures
        r@ == lower(s@),
{
    let mut out: Vec<char> = Vec::new();
    let mut i: usize = 0;
    while i < s.len()
        invariant
            i <= s.len(),
            out@ == lower(s@.subrange(0, i as int)),
        decreases s.len() - i,
    {
        out.push(to_ascii_lower(s[i]));
        i = i + 1;
        assert(out@ =~= lower(s@.subrange(0, i as int)));
    }
    assert(s@.subrange(0, s.len() as int) =~= s@);
    out
}

/// The first place at or after `i` that holds no ASCII white space.
pub open spec fn spaces_end(s: Seq<char>, i: int) -> int
    decreases s.len() - i,
{
    if 0 <= i < s.len() && is_space(s[i]) {
        spaces_end(s, i + 1)
    } else {
        i
    }
}

/// The first place at or after `i` that holds no ASCII white space.
pub fn skip_spaces(s: &Vec<char>, i: usize) -> (r: usize)
    requires
        i <= s.len(),
    ensures
        r == spaces_end(s@, i as int),
        i <= r <= s.len(),
{
    let mut k: usize = i;
    while k < s.len() && is_space_char(s[k])
        invariant
            i <= k <= s.len(),
            spaces_end(s@, i as int) == spaces_end(s@, k as int),
        decreases s.len() - k,
    {
        k = k + 1;
    }
    k
}

/// A text without the ASCII white space at its start.
pub open spec fn trim_start(s: Seq<char>) -> Seq<char> {
    if 0 <= spaces_end(s, 0) <= s.len() {
        s.subrange(spaces_end(s, 0), s.len() as int)
    } else {
        s
    }
}

/// A text without the ASCII white space at its start and at its end.
pub open spec fn trim(s: Seq<char>) -> Seq<char> {
    trim_end(trim_start(s))
}

/// Removes the ASCII white space at the start and at the end.
pub fn trim_chars(s: &Vec<char>) -> (r: Vec<char>)
    ensures
        r@ == trim(s@),
{
    let start = skip_spaces(s, 0);
    let inner = slice_chars(s, start, s.len());
    let mut n: usize = inner.len();
    assert(inner@.subrange(0, inner.len() as int) =~= inner@);
    while n > 0 && is_space_char(inner[n - 1])
        invariant
            n <= inner.len(),
            trim_end(inner@) == trim_end(inner@.subrange(0, n as int)),
        decreases n,
    {
        assert(inner@.subrange(0, n as int).drop_last() =~= inner@.subrange(0, n - 1));
        n = n - 1;
    }
    slice_chars(&inner, 0, n)
}

/// The characters of `v` from `from` on.
pub fn chars_from(v: &Vec<char>, from: usize) -> (r: Vec<char>)
    requires
        from <= v.len(),
    ensures
        r@ == v@.subrange(from as int, v.len() as int),
{
    slice_chars(v, from, v.len())
}


/// The number that a decimal digit stands for.
pub open spec fn digit_value(c: char) -> int {
    if c == '1' {
        1
    } else if c == '2' {
        2
    } else if c == '3' {
        3
    } else if c == '4' {
        4
    } else if c == '5' {
        5
    } else if c == '6' {
        6
    } else if c == '7' {
        7
    } else if c == '8' {
        8
    } else if c == '9' {
        9
    } else {
        0
    }
}

/// The number that a text of decimal digits stands for.
pub open spec fn decimal_value(s: Seq<char>) -> int
    decreases s.len(),
{
    if s.len() == 0 {
        0
    } else {
        10 * decimal_value(s.drop_last()) + digit_value(s.last())
    }
}

/// A number written in decimal stands for that number.
pub proof fn lemma_decimal_value(n: nat)
    ensures
        decimal_value(decimal(n)) == n,
    decreases n,
{
    if n < 10 {
        let s = seq![digit_char(n as int)];
        assert(s.drop_last() =~= Seq::<char>::empty());
        assert(s.last() == digit_char(n as int));
        assert(decimal_value(s.drop_last()) == 0);
    } else {
        lemma_decimal_value(n / 10);
        let s = decimal(n / 10).push(digit_char((n % 10) as int));
        assert(s.drop_last() =~= decimal(n / 10));
        assert(s.last() == digit_char((n % 10) as int));
    }
}

/// Two names made of one base and two different numbers differ.
pub proof fn lemma_numbered_differ(base: Seq<char>, a: nat, b: nat)
    requires
        a != b,
    ensures
        base + decimal(a) != base + decimal(b),
{
    lemma_decimal_value(a);
    lemma_decimal_value(b);
    if base + decimal(a) == base + decimal(b) {
        let x = base + decimal(a);
        let y = base + decimal(b);
        assert(x.subrange(base.len() as int, x.len() as int) =~= decimal(a));
        assert(y.subrange(base.len() as int, y.len() as int) =~= decimal(b));
    }
}

/// Once as many numbered names as there are taken names have been found
/// taken, the next one is free.
proof fn lemma_numbered_fresh(
    taken: Seq<Seq<char>>,
    base: Seq<char>,
    first: nat,
    seen: Seq<Seq<char>>,
    tries: nat,
)
    requires
        seen.len() + tries >= taken.len(),
        forall|i: int| 0 <= i < seen.len() ==> #[trigger] seen[i] == base + decimal((first + i) as nat),
        forall|i: int| 0 <= i < seen.len() ==> taken.contains(#[trigger] seen[i]),
    ensures
        !taken.contains(numbered(taken, base, first + seen.len(), tries)),
    decreases tries,
{
    let k = first + seen.len();
    let candidate = base + decimal(k);
    if taken.contains(candidate) {
        let more = seen.push(candidate);
        assert forall|i: int| 0 <= i < more.len() implies #[trigger] more[i] == base + decimal(
            (first + i) as nat,
        ) by {
            if i < seen.len() {
                assert(more[i] == seen[i]);
            }
        }
        assert forall|i: int| 0 <= i < more.len() implies taken.contains(#[trigger] more[i]) by {
            if i < seen.len() {
                assert(more[i] == seen[i]);
            }
        }
        if tries == 0 {
            assert(more.no_duplicates()) by {
                assert forall|i: int, j: int|
                    0 <= i < more.len() && 0 <= j < more.len() && i != j implies more[i]
                    != more[j] by {
                    lemma_numbered_differ(base, (first + i) as nat, (first + j) as nat);
                }
            }
            lemma_distinct_names(more, taken);
        } else {
            lemma_numbered_fresh(taken, base, first, more, (tries - 1) as nat);
        }
    }
}

/// A fresh alias is not among the names that are taken.
pub proof fn lemma_fresh_alias(taken: Seq<Seq<char>>, name: Seq<char>)
    ensures
        !taken.contains(fresh_alias(taken, name)),
{
    if taken.contains(lower_initial(name)) {
        lemma_numbered_fresh(taken, lower_initial(name), 2, Seq::empty(), taken.len());
    }
}

/// Whether a character can stand inside a word of SQL: an ASCII letter or
/// digit, `_`, `@`, `$` or `#`.
pub open spec fn is_word_part(c: char) -> bool {
    is_letter(c) || is_digit(c) || c == '_' || c == '@' || c == '$' || c == '#'
}

/// Whether a character can stand inside a word of SQL.
pub fn is_word_part_char(c: char) -> (r: bool)
    ensures
        r == is_word_part(c),
{
    ('a' <= c && c <= 'z') || ('A' <= c && c <= 'Z') || ('0' <= c && c <= '9') || c == '_' || c
        == '@' || c == '$' || c == '#'
}

/// Whether `w` stands in `s` at place `i` and no character of a word
/// follows it there.
pub open spec fn word_at(s: Seq<char>, w: Seq<char>, i: int) -> bool {
    matches_at(s, w, i) && (i + w.len() >= s.len() || !is_word_part(s[i + w.len()]))
}

/// The first place at or after `i` where `w` stands in `s` with no
/// character of a word after it.
pub open spec fn word_from(s: Seq<char>, w: Seq<char>, i: int) -> Option<int>
    decreases s.len() + 1 - i,
{
    if i < 0 || i + w.len() > s.len() {
        None
    } else if word_at(s, w, i) {
        Some(i)
    } else {
        word_from(s, w, i + 1)
    }
}

/// What `word_from` finds is the first such place, and it finds one if
/// there is any.
pub proof fn lemma_word_from(s: Seq<char>, w: Seq<char>, i: int)
    requires
        0 <= i,
    ensures
        match word_from(s, w, i) {
            Some(k) => i <= k && word_at(s, w, k) && forall|j: int|
                i <= j < k ==> !word_at(s, w, j),
            None => forall|j: int| i <= j ==> !word_at(s, w, j),
        },
    decreases s.len() + 1 - i,
{
    if i + w.len() > s.len() {
    } else if word_at(s, w, i) {
    } else {
        lemma_word_from(s, w, i + 1);
    }
}

/// Whether `w` stands in `s` at place `i` with no character of a word
/// after it.
pub fn is_word_at(s: &Vec<char>, w: &Vec<char>, i: usize) -> (r: bool)
    ensures
        r == word_at(s@, w@, i as int),
{
    if !starts_at(s, w, i) {
        return false;
    }
    assert(i + w.len() <= s.len());
    i + w.len() >= s.len() || !is_word_part_char(s[i + w.len()])
}

/// The first place at or after `start` where `w` stands in `s` with no
/// character of a word after it.
pub fn find_word(s: &Vec<char>, w: &Vec<char>, start: usize) -> (r: Option<usize>)
    ensures
        match r {
            Some(k) => word_from(s@, w@, start as int) == Some(k as int),
            None => word_from(s@, w@, start as int) is None,
        },
{
    let mut i: usize = start;
    while i <= s.len() && w.len() <= s.len() - i
        invariant
            start <= i,
            word_from(s@, w@, start as int) == word_from(s@, w@, i as int),
        decreases s.len() + 1 - i,
    {
        if is_word_at(s, w, i) {
            return Some(i);
        }
        if i == s.len() {
            assert(word_from(s@, w@, i + 1) is None);
            return None;
        }
        i = i + 1;
    }
    None
}

/// Whether a character is a blank, a tab or the end of a line.
pub open spec fn is_blank(c: char) -> bool {
    c == ' ' || c == '\t' || c == '\n' || c == '\r'
}

/// The first place at or after `i` that holds no blank.
pub open spec fn skip_blanks(s: Seq<char>, i: int) -> int
    decreases s.len() - i,
{
    if 0 <= i < s.len() && is_blank(s[i]) {
        skip_blanks(s, i + 1)
    } else {
        i
    }
}

/// The first place at or after `i` that holds no character of a word.
pub open spec fn skip_word(s: Seq<char>, i: int) -> int
    decreases s.len() - i,
{
    if 0 <= i < s.len() && is_word_part(s[i]) {
        skip_word(s, i + 1)
    } else {
        i
    }
}

/// Whether a plain name begins at place `k`: a letter or `_` stands
/// there, and no quotation mark and no `&` right after it.
pub open spec fn name_starts(s: Seq<char>, k: int) -> bool {
    &&& 0 <= k < s.len()
    &&& is_letter(s[k]) || s[k] == '_'
    &&& k + 1 >= s.len() || !(s[k + 1] == '\'' || s[k + 1] == '"' || s[k + 1] == '&')
}

/// Whether a plain name follows place `i`, after blanks only. With
/// `last`, the name must also be made of letters, digits, `_`, `@`, `$`
/// and `#` alone and be the last thing before the end of the text or a
/// `;`, but for blanks.
pub open spec fn named_from(s: Seq<char>, i: int, last: bool) -> bool {
    let k = skip_blanks(s, i);
    let n = skip_blanks(s, skip_word(s, k));
    name_starts(s, k) && (last ==> n >= s.len() || s[n] == ';')
}

/// The first place at or after `i` that holds no blank.
pub fn skip_blanks_at(s: &Vec<char>, i: usize) -> (r: usize)
    requires
        i <= s.len(),
    ensures
        r == skip_blanks(s@, i as int),
        i <= r <= s.len(),
{
    let mut k: usize = i;
    while k < s.len() && (s[k] == ' ' || s[k] == '\t' || s[k] == '\n' || s[k] == '\r')
        invariant
            i <= k <= s.len(),
            skip_blanks(s@, i as int) == skip_blanks(s@, k as int),
        decreases s.len() - k,
    {
        k = k + 1;
    }
    k
}

/// The first place at or after `i` that holds no character of a word.
pub fn skip_word_at(s: &Vec<char>, i: usize) -> (r: usize)
    requires
        i <= s.len(),
    ensures
        r == skip_word(s@, i as int),
        i <= r <= s.len(),
{
    let mut k: usize = i;
    while k < s.len() && is_word_part_char(s[k])
        invariant
            i <= k <= s.len(),
            skip_word(s@, i as int) == skip_word(s@, k as int),
        decreases s.len() - k,
    {
        k = k + 1;
    }
    k
}

/// Whether a plain name follows place `i`, after blanks only, and with
/// `last` is the last thing before the end of the text or a `;`.
pub fn is_named_from(s: &Vec<char>, i: usize, last: bool) -> (r: bool)
    requires
        i <= s.len(),
    ensures
        r == named_from(s@, i as int, last),
{
    let k = skip_blanks_at(s, i);
    if k >= s.len() {
        return false;
    }
    let c = s[k];
    if !(('a' <= c && c <= 'z') || ('A' <= c && c <= 'Z') || c == '_') {
        return false;
    }
    if k + 1 < s.len() && (s[k + 1] == '\'' || s[k + 1] == '"' || s[k + 1] == '&') {
        return false;
    }
    if !last {
        return true;
    }
    let n = skip_blanks_at(s, skip_word_at(s, k));
    n >= s.len() || s[n] == ';'
}

/// Whether the words `a`, `b` and `c` stand in `s` at the places `i`,
/// `j` and `k`, one after the other.
pub open spec fn in_order(
    s: Seq<char>,
    a: Seq<char>,
    b: Seq<char>,
    c: Seq<char>,
    i: int,
    j: int,
    k: int,
) -> bool {
    &&& 0 <= i
    &&& word_at(s, a, i)
    &&& i + a.len() <= j
    &&& word_at(s, b, j)
    &&& j + b.len() <= k
    &&& word_at(s, c, k)
}

/// Whether somewhere in `s` the word `c` stands after the word `b` after
/// the word `a`, and no plain name follows it there.
pub open spec fn unnamed_third(s: Seq<char>, a: Seq<char>, b: Seq<char>, c: Seq<char>, last: bool) -> bool {
    exists|i: int, j: int, k: int| #[trigger]
        in_order(s, a, b, c, i, j, k) && !named_from(s, k + c.len(), last)
}

/// Whether somewhere in `s` the word `c` stands after the word `b` after
/// the word `a`, and no plain name follows it there.
pub fn has_unnamed_third(
    s: &Vec<char>,
    a: &Vec<char>,
    b: &Vec<char>,
    c: &Vec<char>,
    last: bool,
) -> (r: bool)
    ensures
        r == unnamed_third(s@, a@, b@, c@, last),
{
    proof {
        lemma_word_from(s@, a@, 0);
    }
    let i0 = match find_word(s, a, 0) {
        Some(i) => i,
        None => {
            assert forall|i: int, j: int, k: int| !(#[trigger] in_order(s@, a@, b@, c@, i, j, k)) by {}
            return false;
        },
    };
    assert(word_at(s@, a@, i0 as int));
    assert(i0 + a.len() <= s.len());
    proof {
        lemma_word_from(s@, b@, i0 + a.len());
    }
    let j0 = match find_word(s, b, i0 + a.len()) {
        Some(j) => j,
        None => {
            assert forall|i: int, j: int, k: int| !(#[trigger] in_order(s@, a@, b@, c@, i, j, k)) by {
                if in_order(s@, a@, b@, c@, i, j, k) {
                    assert(i >= i0);
                    assert(!word_at(s@, b@, j));
                }
            }
            return false;
        },
    };
    assert(word_at(s@, b@, j0 as int));
    assert(j0 + b.len() <= s.len());
    let start = j0 + b.len();
    let mut from: usize = start;
    let mut done = false;
    while !done
        invariant
            start <= from <= s.len(),
            start == j0 + b.len(),
            word_at(s@, a@, i0 as int),
            word_at(s@, b@, j0 as int),
            i0 + a@.len() <= j0,
            forall|k: int|
                start <= k < from && #[trigger] word_at(s@, c@, k) ==> named_from(
                    s@,
                    k + c@.len(),
                    last,
                ),
            done ==> forall|k: int|
                from <= k && #[trigger] word_at(s@, c@, k) ==> named_from(s@, k + c@.len(), last),
            forall|i: int| 0 <= i < i0 ==> !word_at(s@, a@, i),
            forall|j: int| i0 + a@.len() <= j < j0 ==> !word_at(s@, b@, j),
        decreases s.len() - from + (if done { 0int } else { 1int }),
    {
        proof {
            lemma_word_from(s@, c@, from as int);
        }
        match find_word(s, c, from) {
            None => {
                done = true;
            },
            Some(k) => {
                assert(word_at(s@, c@, k as int));
                assert(k + c.len() <= s.len());
                if !is_named_from(s, k + c.len(), last) {
                    assert(in_order(s@, a@, b@, c@, i0 as int, j0 as int, k as int));
                    return true;
                }
                if k >= s.len() {
                    from = k;
                    done = true;
                } else {
                    from = k + 1;
                }
            },
        }
    }
    assert forall|i: int, j: int, k: int| #[trigger]
        in_order(s@, a@, b@, c@, i, j, k) implies named_from(s@, k + c@.len(), last) by {
        assert(i >= i0);
        assert(j >= j0);
        assert(k >= start);
    }
    false
}

} // verus!
