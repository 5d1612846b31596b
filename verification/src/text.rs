//! Text helpers shared by the parsers: every one of them states its result over
//! the sequence of characters that a string holds.

use vstd::prelude::*;
use vstd::string::*;
use vstd::utf8::*;

verus! {

/// `String::push`: appends the character to the end of the string.
pub assume_specification[ String::push ](s: &mut String, ch: char)
    ensures
        final(s)@ == old(s)@.push(ch),
;

/// The characters that each string of a list holds.
pub open spec fn texts(v: Seq<&str>) -> Seq<Seq<char>> {
    Seq::new(v.len(), |i: int| v[i]@)
}

/// The views of the items of a list.
pub open spec fn views<T: View>(v: Seq<T>) -> Seq<T::V> {
    Seq::new(v.len(), |i: int| v[i]@)
}

/// The characters that each string of a list holds.
pub open spec fn strings(v: Seq<String>) -> Seq<Seq<char>> {
    Seq::new(v.len(), |i: int| v[i]@)
}

/// The characters that an optional string holds.
pub open spec fn opt_text(o: Option<String>) -> Option<Seq<char>> {
    match o {
        Some(s) => Some(s@),
        None => None,
    }
}

/// The characters that an optional string slice holds.
pub open spec fn opt_str(o: Option<&str>) -> Option<Seq<char>> {
    match o {
        Some(s) => Some(s@),
        None => None,
    }
}

// ---------------------------------------------------------------------------
// Characters
// ---------------------------------------------------------------------------

/// The characters with the Unicode property `White_Space`.
pub open spec fn is_white(c: char) -> bool {
    let n = c as u32;
    ||| 9 <= n <= 13
    ||| n == 0x20
    ||| n == 0x85
    ||| n == 0xA0
    ||| n == 0x1680
    ||| 0x2000 <= n <= 0x200A
    ||| n == 0x2028
    ||| n == 0x2029
    ||| n == 0x202F
    ||| n == 0x205F
    ||| n == 0x3000
}

/// Whether a character is white space.
pub fn is_whitespace(c: char) -> (r: bool)
    ensures
        r == is_white(c),
{
    let n: u32 = c as u32;
    (9 <= n && n <= 13) || n == 0x20 || n == 0x85 || n == 0xA0 || n == 0x1680 || (0x2000 <= n && n
        <= 0x200A) || n == 0x2028 || n == 0x2029 || n == 0x202F || n == 0x205F || n == 0x3000
}

/// `0` to `9`.
pub open spec fn is_digit(c: char) -> bool {
    '0' <= c <= '9'
}

/// What a character stands for as a digit: `0` to `9`, then the letters of
/// either case from 10 on. Any other character stands for 36, which is a digit
/// in no radix.
pub open spec fn digit_value(c: char) -> int {
    if '0' <= c <= '9' {
        c as int - '0' as int
    } else if 'a' <= c <= 'z' {
        c as int - 'a' as int + 10
    } else if 'A' <= c <= 'Z' {
        c as int - 'A' as int + 10
    } else {
        36
    }
}

fn digit_of(c: char) -> (d: u64)
    ensures
        d == digit_value(c),
        d <= 36,
{
    if '0' <= c && c <= '9' {
        (c as u32 - '0' as u32) as u64
    } else if 'a' <= c && c <= 'z' {
        (c as u32 - 'a' as u32 + 10) as u64
    } else if 'A' <= c && c <= 'Z' {
        (c as u32 - 'A' as u32 + 10) as u64
    } else {
        36
    }
}

/// The character of a hexadecimal digit, in lower case.
pub open spec fn digit_char(d: int) -> char {
    if d < 10 {
        (d + '0' as int) as char
    } else {
        (d - 10 + 'a' as int) as char
    }
}

fn char_of_digit(d: u8) -> (c: char)
    requires
        d < 16,
    ensures
        c == digit_char(d as int),
{
    if d < 10 {
        (d + 48u8) as char
    } else {
        (d - 10u8 + 97u8) as char
    }
}

// ---------------------------------------------------------------------------
// Whole strings
// ---------------------------------------------------------------------------

/// The characters of a string, in order.
pub fn chars_of(s: &str) -> (v: Vec<char>)
    ensures
        v@ == s@,
{
    let mut v: Vec<char> = Vec::new();
    for c in it: s.chars()
        invariant
            v@ == it.seq().take(it.index() as int),
            it.seq() == s@,
    {
        v.push(c);
        assert(v@ == it.seq().take(it.index() as int + 1));
    }
    assert(v@ == s@);
    v
}

/// Whether two strings hold the same characters.
pub fn str_eq(a: &str, b: &str) -> (r: bool)
    ensures
        r == (a@ == b@),
{
    let a: String = a.to_owned();
    let b: String = b.to_owned();
    a == b
}

/// Whether `pat` stands in `s` from position `i` on.
pub open spec fn matches_at(s: Seq<char>, pat: Seq<char>, i: int) -> bool {
    0 <= i && i + pat.len() <= s.len() && s.subrange(i, i + pat.len() as int) == pat
}

/// Whether `s` begins with `pat`.
pub open spec fn starts(s: Seq<char>, pat: Seq<char>) -> bool {
    matches_at(s, pat, 0)
}

/// Whether `s` ends with `pat`.
pub open spec fn ends(s: Seq<char>, pat: Seq<char>) -> bool {
    matches_at(s, pat, s.len() - pat.len())
}

/// Whether `pat` stands anywhere in `s`.
pub open spec fn holds(s: Seq<char>, pat: Seq<char>) -> bool {
    exists|i: int| matches_at(s, pat, i)
}

fn chars_match_at(v: &Vec<char>, p: &Vec<char>, at: usize) -> (r: bool)
    ensures
        r == matches_at(v@, p@, at as int),
{
    if p.len() > v.len() || at > v.len() - p.len() {
        return false;
    }
    let mut i: usize = 0;
    while i < p.len()
        invariant
            i <= p.len(),
            at + p.len() <= v.len(),
            forall|k: int| 0 <= k < i ==> v@[at + k] == p@[k],
        decreases p.len() - i,
    {
        if v[at + i] != p[i] {
            assert(v@.subrange(at as int, at + p@.len() as int)[i as int] != p@[i as int]);
            return false;
        }
        i += 1;
    }
    assert(v@.subrange(at as int, at + p@.len() as int) =~= p@);
    true
}

/// `str::starts_with` for a string pattern.
pub fn starts_with(s: &str, pat: &str) -> (r: bool)
    ensures
        r == starts(s@, pat@),
{
    chars_match_at(&chars_of(s), &chars_of(pat), 0)
}

/// `str::ends_with` for a string pattern.
pub fn ends_with(s: &str, pat: &str) -> (r: bool)
    ensures
        r == ends(s@, pat@),
{
    let v: Vec<char> = chars_of(s);
    let p: Vec<char> = chars_of(pat);
    if p.len() > v.len() {
        return false;
    }
    let at: usize = v.len() - p.len();
    chars_match_at(&v, &p, at)
}

/// The first position at which `pat` stands in `s`, or the length of `s` plus
/// one where it stands nowhere.
pub open spec fn first_at(s: Seq<char>, pat: Seq<char>, from: int) -> int
    decreases s.len() + 1 - from,
{
    if from > s.len() || matches_at(s, pat, from) {
        from
    } else {
        first_at(s, pat, from + 1)
    }
}

proof fn lemma_first_at(s: Seq<char>, pat: Seq<char>, from: int)
    requires
        0 <= from <= s.len() + 1,
    ensures
        from <= first_at(s, pat, from) <= s.len() + 1,
        first_at(s, pat, from) <= s.len() ==> matches_at(s, pat, first_at(s, pat, from)),
        forall|k: int| from <= k < first_at(s, pat, from) ==> !matches_at(s, pat, k),
    decreases s.len() + 1 - from,
{
    if from > s.len() || matches_at(s, pat, from) {
    } else {
        lemma_first_at(s, pat, from + 1);
    }
}

/// Where `pat` first stands in `s`, as a count of characters.
pub fn find(s: &str, pat: &str) -> (r: Option<usize>)
    ensures
        match r {
            Some(i) => i == first_at(s@, pat@, 0) && i + pat@.len() <= s@.len() && matches_at(
                s@,
                pat@,
                i as int,
            ),
            None => first_at(s@, pat@, 0) > s@.len() && !holds(s@, pat@),
        },
{
    let v: Vec<char> = chars_of(s);
    let p: Vec<char> = chars_of(pat);
    let mut i: usize = 0;
    proof {
        lemma_first_at(s@, pat@, 0);
    }
    while i <= v.len() && p.len() <= v.len() - i
        invariant
            v@ == s@,
            p@ == pat@,
            i <= v.len(),
            first_at(s@, pat@, 0) == first_at(s@, pat@, i as int),
            forall|k: int| 0 <= k < i ==> !matches_at(s@, pat@, k),
        decreases v.len() - i,
    {
        if chars_match_at(&v, &p, i) {
            return Some(i);
        }
        if i == v.len() {
            proof {
                lemma_first_at(s@, pat@, i as int);
            }
            return None;
        }
        i += 1;
    }
    proof {
        lemma_first_at(s@, pat@, i as int);
    }
    None
}

/// `str::contains` for a string pattern.
pub fn contains(s: &str, pat: &str) -> (r: bool)
    ensures
        r == holds(s@, pat@),
{
    find(s, pat).is_some()
}

/// `str::strip_prefix` for a string pattern: what follows the prefix.
pub fn strip_prefix<'a>(s: &'a str, pat: &str) -> (r: Option<&'a str>)
    ensures
        opt_str(r) == (if starts(s@, pat@) {
            Some(s@.skip(pat@.len() as int))
        } else {
            None
        }),
{
    let v: Vec<char> = chars_of(s);
    let p: Vec<char> = chars_of(pat);
    if chars_match_at(&v, &p, 0) {
        Some(s.substring_char(p.len(), v.len()))
    } else {
        None
    }
}

/// `str::strip_suffix` for a string pattern: what precedes the suffix.
pub fn strip_suffix<'a>(s: &'a str, pat: &str) -> (r: Option<&'a str>)
    ensures
        opt_str(r) == (if ends(s@, pat@) {
            Some(s@.take(s@.len() - pat@.len()))
        } else {
            None
        }),
{
    let v: Vec<char> = chars_of(s);
    let p: Vec<char> = chars_of(pat);
    if p.len() <= v.len() {
        let at: usize = v.len() - p.len();
        if chars_match_at(&v, &p, at) {
            return Some(s.substring_char(0, at));
        }
    }
    None
}

/// A text without any occurrence of a pattern, found from the left.
pub open spec fn without(s: Seq<char>, pat: Seq<char>) -> Seq<char>
    decreases s.len(),
{
    if s.len() == 0 || pat.len() == 0 {
        s
    } else if matches_at(s, pat, 0) {
        without(s.skip(pat.len() as int), pat)
    } else {
        seq![s[0]] + without(s.skip(1), pat)
    }
}

/// `str::replace` of a pattern, which is not empty, by nothing.
pub fn remove_all(s: &str, pat: &str) -> (r: String)
    requires
        pat@.len() > 0,
    ensures
        r@ == without(s@, pat@),
{
    let v: Vec<char> = chars_of(s);
    let p: Vec<char> = chars_of(pat);
    let mut out: String = "".to_owned();
    let mut i: usize = 0;
    proof {
        reveal_strlit("");
        assert(s@.skip(0) =~= s@);
        assert(out@ + without(s@.skip(0), pat@) =~= without(s@, pat@));
    }
    while i < v.len()
        invariant
            i <= v@.len(),
            v@ == s@,
            p@ == pat@,
            pat@.len() > 0,
            without(s@, pat@) == out@ + without(s@.skip(i as int), pat@),
        decreases v@.len() - i,
    {
        let ghost rest = s@.skip(i as int);
        let ghost before = out@;
        proof {
            if i + pat@.len() <= s@.len() {
                assert(s@.subrange(i as int, i + pat@.len()) =~= rest.subrange(
                    0,
                    pat@.len() as int,
                ));
            }
        }
        if chars_match_at(&v, &p, i) {
            assert(matches_at(rest, pat@, 0));
            assert(rest.skip(pat@.len() as int) =~= s@.skip(i + pat@.len()));
            i += p.len();
        } else {
            assert(!matches_at(rest, pat@, 0));
            assert(rest.skip(1) =~= s@.skip(i + 1));
            out.push(v[i]);
            assert(out@ + without(s@.skip(i + 1), pat@) =~= before + (seq![v@[i as int]]
                + without(s@.skip(i + 1), pat@)));
            i += 1;
        }
    }
    assert(s@.skip(i as int) =~= Seq::<char>::empty());
    assert(without(s@, pat@) =~= out@);
    out
}

/// The path of the entry `name` of the directory `dir`.
pub open spec fn joined(dir: Seq<char>, name: Seq<char>) -> Seq<char> {
    if dir.len() == 0 || dir.last() == '/' {
        dir + name
    } else {
        dir.push('/') + name
    }
}

/// `Path::join` of a directory with the name of an entry in it.
pub fn join_path(dir: &str, name: &str) -> (r: String)
    ensures
        r@ == joined(dir@, name@),
{
    let n: usize = dir.unicode_len();
    let mut r: String = dir.to_owned();
    if n > 0 && dir.get_char(n - 1) != '/' {
        r.push('/');
    }
    r.append(name);
    r
}

// ---------------------------------------------------------------------------
// Order
// ---------------------------------------------------------------------------

/// Whether `a` comes before `b`: by the first character in which they differ, or by
/// being the shorter where they do not.
pub open spec fn precedes(a: Seq<char>, b: Seq<char>) -> bool
    decreases a.len(),
{
    if b.len() == 0 {
        false
    } else if a.len() == 0 {
        true
    } else if a[0] != b[0] {
        a[0] < b[0]
    } else {
        precedes(a.skip(1), b.skip(1))
    }
}

/// The order of texts is strict and total.
pub proof fn precedes_is_total(a: Seq<char>, b: Seq<char>)
    ensures
        !precedes(a, a),
        precedes(a, b) ==> !precedes(b, a),
        a != b ==> precedes(a, b) || precedes(b, a),
    decreases a.len(),
{
    if a.len() > 0 {
        precedes_is_total(a.skip(1), a.skip(1));
        if b.len() > 0 && a[0] == b[0] {
            precedes_is_total(a.skip(1), b.skip(1));
            if a.skip(1) == b.skip(1) {
                assert forall|i: int| 0 <= i < a.len() implies a[i] == b[i] by {
                    if i > 0 {
                        assert(a.skip(1)[i - 1] == b.skip(1)[i - 1]);
                    }
                }
                assert(a.skip(1).len() == b.skip(1).len());
                assert(a =~= b);
            }
        }
    } else if b.len() == 0 {
        assert(a =~= b);
    }
}

/// The order of texts is transitive.
pub proof fn precedes_is_transitive(a: Seq<char>, b: Seq<char>, c: Seq<char>)
    requires
        precedes(a, b),
        precedes(b, c),
    ensures
        precedes(a, c),
    decreases a.len(),
{
    if a.len() > 0 && b.len() > 0 && c.len() > 0 && a[0] == b[0] && b[0] == c[0] {
        precedes_is_transitive(a.skip(1), b.skip(1), c.skip(1));
    }
}

/// Whether `a` comes before `b`.
pub fn comes_before(a: &str, b: &str) -> (r: bool)
    ensures
        r == precedes(a@, b@),
{
    let x: Vec<char> = chars_of(a);
    let y: Vec<char> = chars_of(b);
    let mut i: usize = 0;
    assert(a@.skip(0) =~= a@);
    assert(b@.skip(0) =~= b@);
    while i < x.len() && i < y.len()
        invariant
            i <= x.len(),
            i <= y.len(),
            x@ == a@,
            y@ == b@,
            precedes(a@, b@) == precedes(a@.skip(i as int), b@.skip(i as int)),
        decreases x.len() - i,
    {
        if x[i] != y[i] {
            return x[i] < y[i];
        }
        assert(a@.skip(i as int).skip(1) =~= a@.skip(i + 1));
        assert(b@.skip(i as int).skip(1) =~= b@.skip(i + 1));
        i += 1;
    }
    i == x.len() && i < y.len()
}

/// Where a text goes among ordered ones, from a position on: before the first that it
/// comes before.
pub open spec fn slot(keys: Seq<Seq<char>>, order: Seq<int>, key: Seq<char>, from: int) -> int
    decreases order.len() - from,
{
    if from >= order.len() || precedes(key, keys[order[from]]) {
        from
    } else {
        slot(keys, order, key, from + 1)
    }
}

/// The positions of texts in the order of the texts; equal texts keep their order.
pub open spec fn order_of(keys: Seq<Seq<char>>) -> Seq<int>
    decreases keys.len(),
{
    if keys.len() == 0 {
        Seq::empty()
    } else {
        let before = order_of(keys.drop_last());
        before.insert(slot(keys, before, keys.last(), 0), keys.len() - 1)
    }
}

/// Whether positions are those of ordered texts: each text once, none before one that it
/// comes after, and equal texts in the order of their positions.
pub open spec fn is_order(keys: Seq<Seq<char>>, order: Seq<int>) -> bool {
    &&& order.len() == keys.len()
    &&& forall|i: int| 0 <= i < order.len() ==> 0 <= #[trigger] order[i] < keys.len()
    &&& order.no_duplicates()
    &&& forall|i: int, j: int|
        0 <= i < j < order.len() ==> (precedes(
            keys[#[trigger] order[i]],
            keys[#[trigger] order[j]],
        ) || (keys[order[i]] == keys[order[j]] && order[i] < order[j]))
}

proof fn lemma_slot(keys: Seq<Seq<char>>, order: Seq<int>, key: Seq<char>, from: int)
    requires
        0 <= from <= order.len(),
    ensures
        ({
            let at = slot(keys, order, key, from);
            &&& from <= at <= order.len()
            &&& at < order.len() ==> precedes(key, keys[order[at]])
            &&& forall|i: int| from <= i < at ==> !precedes(key, keys[#[trigger] order[i]])
        }),
    decreases order.len() - from,
{
    if from < order.len() && !precedes(key, keys[order[from]]) {
        lemma_slot(keys, order, key, from + 1);
    }
}

/// `order_of` sorts, and is stable.
pub proof fn order_of_sorts(keys: Seq<Seq<char>>)
    ensures
        is_order(keys, order_of(keys)),
    decreases keys.len(),
{
    if keys.len() > 0 {
        let front = keys.drop_last();
        let n = keys.len() - 1;
        let before = order_of(front);
        order_of_sorts(front);
        assert forall|i: int| 0 <= i < before.len() implies keys[#[trigger] before[i]]
            == front[before[i]] by {}
        lemma_slot(keys, before, keys.last(), 0);
        let at = slot(keys, before, keys.last(), 0);
        let order = before.insert(at, n);
        assert(order == order_of(keys));
        assert forall|i: int, j: int| 0 <= i < j < order.len() implies (precedes(
            keys[#[trigger] order[i]],
            keys[#[trigger] order[j]],
        ) || (keys[order[i]] == keys[order[j]] && order[i] < order[j])) && order[i] != order[j] by {
            let a = if i <= at { i } else { i - 1 };
            let b = if j <= at { j } else { j - 1 };
            if i == at {
                assert(order[j] == before[b]);
                if b > at {
                    assert(precedes(keys.last(), keys[before[at]]));
                    assert(precedes(front[before[at]], front[before[b]]) || front[before[at]]
                        == front[before[b]]);
                    if precedes(front[before[at]], front[before[b]]) {
                        precedes_is_transitive(keys.last(), keys[before[at]], keys[before[b]]);
                    }
                }
            } else if j == at {
                assert(order[i] == before[a]);
                precedes_is_total(keys.last(), keys[before[a]]);
            } else {
                assert(order[i] == before[a]);
                assert(order[j] == before[b]);
            }
        }
        assert forall|i: int| 0 <= i < order.len() implies 0 <= #[trigger] order[i] < keys.len() by {
            if i < at {
                assert(order[i] == before[i]);
            } else if i > at {
                assert(order[i] == before[i - 1]);
            }
        }
    }
}

/// Putting items in the order of their keys loses none and adds none.
pub proof fn ordering_keeps_everything<T>(items: Seq<T>, keys: Seq<Seq<char>>)
    requires
        items.len() == keys.len(),
    ensures
        order_of(keys).map_values(|i: int| items[i]).to_multiset() == items.to_multiset(),
    decreases keys.len(),
{
    let sorted = order_of(keys).map_values(|i: int| items[i]);
    if keys.len() == 0 {
        assert(sorted =~= items);
    } else {
        let front = items.drop_last();
        let before = order_of(keys.drop_last());
        let sorted_front = before.map_values(|i: int| front[i]);
        let at = slot(keys, before, keys.last(), 0);
        order_of_sorts(keys.drop_last());
        lemma_slot(keys, before, keys.last(), 0);
        ordering_keeps_everything(front, keys.drop_last());
        assert(sorted =~= sorted_front.insert(at, items.last()));
        vstd::seq_lib::to_multiset_insert(sorted_front, at, items.last());
        vstd::seq_lib::to_multiset_build(front, items.last());
        assert(items =~= front.push(items.last()));
    }
}

/// Positions as numbers.
pub open spec fn positions(v: Seq<usize>) -> Seq<int> {
    v.map_values(|p: usize| p as int)
}

/// The positions of texts in the order of the texts; equal texts keep their order.
pub fn sorted_positions(keys: &Vec<String>) -> (r: Vec<usize>)
    ensures
        positions(r@) == order_of(strings(keys@)),
        r@.len() == keys@.len(),
        forall|i: int| 0 <= i < r@.len() ==> #[trigger] r@[i] < keys@.len(),
{
    let ghost all = strings(keys@);
    let mut r: Vec<usize> = Vec::new();
    let mut n: usize = 0;
    assert(positions(r@) =~= order_of(all.take(0)));
    while n < keys.len()
        invariant
            n <= keys@.len(),
            all == strings(keys@),
            positions(r@) == order_of(all.take(n as int)),
            r@.len() == n,
            forall|i: int| 0 <= i < r@.len() ==> #[trigger] r@[i] < n,
        decreases keys@.len() - n,
    {
        let ghost some = all.take(n + 1);
        let ghost before = order_of(all.take(n as int));
        proof {
            assert(some.drop_last() =~= all.take(n as int));
            assert(some.last() == all[n as int]);
        }
        let mut at: usize = 0;
        while at < r.len() && !comes_before(keys[n].as_str(), keys[r[at]].as_str())
            invariant
                at <= r@.len(),
                n < keys@.len(),
                all == strings(keys@),
                some == all.take(n + 1),
                before == positions(r@),
                forall|i: int| 0 <= i < r@.len() ==> #[trigger] r@[i] < n,
                slot(some, before, all[n as int], 0) == slot(
                    some,
                    before,
                    all[n as int],
                    at as int,
                ),
            decreases r@.len() - at,
        {
            assert(before[at as int] == r@[at as int]);
            assert(some[before[at as int]] == all[r@[at as int] as int]);
            at += 1;
        }
        proof {
            if at < r@.len() {
                assert(before[at as int] == r@[at as int]);
                assert(some[before[at as int]] == all[r@[at as int] as int]);
            }
        }
        let ghost was = r@;
        r.insert(at, n);
        assert(positions(r@) =~= positions(was).insert(at as int, n as int));
        n += 1;
    }
    assert(all.take(n as int) =~= all);
    r
}

/// Whether every text of the list comes before the next ones.
pub open spec fn ascending(v: Seq<Seq<char>>) -> bool {
    forall|i: int, j: int| 0 <= i < j < v.len() ==> precedes(#[trigger] v[i], #[trigger] v[j])
}

/// Where a text belongs in an ascending list that does not hold it: behind all that come
/// before it.
pub fn insertion_point(v: &Vec<String>, s: &str) -> (at: usize)
    requires
        ascending(strings(v@)),
        !strings(v@).contains(s@),
    ensures
        at <= v@.len(),
        ascending(strings(v@).insert(at as int, s@)),
{
    let ghost list = strings(v@);
    let mut at: usize = 0;
    while at < v.len() && comes_before(v[at].as_str(), s)
        invariant
            at <= v@.len(),
            list == strings(v@),
            forall|i: int| 0 <= i < at ==> precedes(#[trigger] list[i], s@),
        decreases v@.len() - at,
    {
        assert(list[at as int] == v@[at as int]@);
        at += 1;
    }
    proof {
        let new = list.insert(at as int, s@);
        assert forall|i: int, j: int| 0 <= i < j < new.len() implies precedes(
            #[trigger] new[i],
            #[trigger] new[j],
        ) by {
            if at < list.len() {
                assert(list[at as int] == v@[at as int]@);
                precedes_is_total(s@, list[at as int]);
                assert(list.contains(list[at as int]));
            }
            if j == at {
                assert(new[i] == list[i]);
            } else if i == at {
                assert(new[j] == list[j - 1]);
                if j - 1 > at {
                    precedes_is_transitive(s@, list[at as int], list[j - 1]);
                }
            } else {
                let a = if i < at {
                    i
                } else {
                    i - 1
                };
                let b = if j < at {
                    j
                } else {
                    j - 1
                };
                assert(new[i] == list[a]);
                assert(new[j] == list[b]);
            }
        }
    }
    at
}

/// The first `i + 1` items of a list are the first `i` and one more; the new one is new
/// where nothing stands twice.
pub proof fn lemma_take_set(v: Seq<Seq<char>>, i: int)
    requires
        0 <= i < v.len(),
    ensures
        v.take(i + 1).to_set() == v.take(i).to_set().insert(v[i]),
        v.no_duplicates() ==> !v.take(i).to_set().contains(v[i]),
{
    let a = v.take(i);
    let b = v.take(i + 1);
    assert forall|x: Seq<char>| b.to_set().contains(x) <==> a.to_set().insert(v[i]).contains(x) by {
        if a.contains(x) {
            let j = choose|j: int| 0 <= j < a.len() && a[j] == x;
            assert(b[j] == x);
        }
        assert(b[i] == v[i]);
        if b.contains(x) {
            let j = choose|j: int| 0 <= j < b.len() && b[j] == x;
            if j < i {
                assert(a[j] == x);
            }
        }
    }
    assert(v.take(i + 1).to_set() =~= v.take(i).to_set().insert(v[i]));
    if a.contains(v[i]) {
        let j = choose|j: int| 0 <= j < a.len() && a[j] == v[i];
        assert(v[j] == v[i]);
    }
}

/// Inserting an item into a list adds it to what the list holds.
pub proof fn lemma_insert_set(v: Seq<Seq<char>>, at: int, x: Seq<char>)
    requires
        0 <= at <= v.len(),
    ensures
        v.insert(at, x).to_set() == v.to_set().insert(x),
{
    let w = v.insert(at, x);
    assert forall|y: Seq<char>| w.to_set().contains(y) <==> v.to_set().insert(x).contains(y) by {
        if w.contains(y) {
            let j = choose|j: int| 0 <= j < w.len() && w[j] == y;
            if j < at {
                assert(v[j] == y);
            } else if j > at {
                assert(v[j - 1] == y);
            }
        }
        if v.contains(y) {
            let j = choose|j: int| 0 <= j < v.len() && v[j] == y;
            if j < at {
                assert(w[j] == y);
            } else {
                assert(w[j + 1] == y);
            }
        }
        assert(w[at] == x);
    }
    assert(w.to_set() =~= v.to_set().insert(x));
}

// ---------------------------------------------------------------------------
// Trimming
// ---------------------------------------------------------------------------

/// `s` without the white space at its start.
pub open spec fn trimmed_start(s: Seq<char>) -> Seq<char>
    decreases s.len(),
{
    if s.len() > 0 && is_white(s[0]) {
        trimmed_start(s.skip(1))
    } else {
        s
    }
}

/// `s` without the white space at its end.
pub open spec fn trimmed_end(s: Seq<char>) -> Seq<char>
    decreases s.len(),
{
    if s.len() > 0 && is_white(s.last()) {
        trimmed_end(s.drop_last())
    } else {
        s
    }
}

/// `s` without the white space at its two ends.
pub open spec fn trimmed(s: Seq<char>) -> Seq<char> {
    trimmed_end(trimmed_start(s))
}

/// `str::trim_start`.
pub fn trim_start(s: &str) -> (r: &str)
    ensures
        r@ == trimmed_start(s@),
{
    let v: Vec<char> = chars_of(s);
    let mut i: usize = 0;
    assert(s@.skip(0) =~= s@);
    while i < v.len() && is_whitespace(v[i])
        invariant
            i <= v.len(),
            v@ == s@,
            trimmed_start(s@) == trimmed_start(s@.skip(i as int)),
        decreases v.len() - i,
    {
        assert(s@.skip(i as int).skip(1) =~= s@.skip(i + 1));
        i += 1;
    }
    s.substring_char(i, v.len())
}

/// `str::trim_end`.
pub fn trim_end(s: &str) -> (r: &str)
    ensures
        r@ == trimmed_end(s@),
{
    let v: Vec<char> = chars_of(s);
    let mut i: usize = v.len();
    assert(s@.take(s@.len() as int) =~= s@);
    while i > 0 && is_whitespace(v[i - 1])
        invariant
            i <= v.len(),
            v@ == s@,
            trimmed_end(s@) == trimmed_end(s@.take(i as int)),
        decreases i,
    {
        assert(s@.take(i as int).drop_last() =~= s@.take(i - 1));
        i -= 1;
    }
    s.substring_char(0, i)
}

/// `str::trim`.
pub fn trim(s: &str) -> (r: &str)
    ensures
        r@ == trimmed(s@),
{
    trim_end(trim_start(s))
}

/// Whether a text is all white space.
pub open spec fn is_blank(s: Seq<char>) -> bool {
    forall|i: int| 0 <= i < s.len() ==> is_white(#[trigger] s[i])
}

/// White space around a text that neither begins nor ends with it is all that trimming
/// takes away.
pub proof fn trimming_takes_the_padding(lead: Seq<char>, s: Seq<char>, trail: Seq<char>)
    requires
        is_blank(lead),
        is_blank(trail),
        s.len() > 0,
        !is_white(s[0]),
        !is_white(s.last()),
    ensures
        trimmed(lead + s + trail) == s,
    decreases lead.len() + trail.len(),
{
    let all = lead + s + trail;
    if lead.len() > 0 {
        let rest = lead.skip(1);
        assert forall|i: int| 0 <= i < rest.len() implies is_white(#[trigger] rest[i]) by {
            assert(rest[i] == lead[i + 1]);
        }
        assert(all[0] == lead[0]);
        assert(all.skip(1) =~= rest + s + trail);
        trimming_takes_the_padding(rest, s, trail);
    } else if trail.len() > 0 {
        let rest = trail.drop_last();
        assert forall|i: int| 0 <= i < rest.len() implies is_white(#[trigger] rest[i]) by {
            assert(rest[i] == trail[i]);
        }
        let shorter = lead + s + rest;
        assert(all[0] == s[0] && shorter[0] == s[0]);
        assert(all.last() == trail.last());
        assert(all.drop_last() =~= shorter);
        trimming_takes_the_padding(lead, s, rest);
    } else {
        assert(all =~= s);
    }
}

// ---------------------------------------------------------------------------
// Splitting
// ---------------------------------------------------------------------------

/// The position of the first `c` in `s`, or the length of `s` where it has none.
pub open spec fn index_of(s: Seq<char>, c: char) -> int
    decreases s.len(),
{
    if s.len() == 0 || s[0] == c {
        0
    } else {
        1 + index_of(s.skip(1), c)
    }
}

proof fn lemma_index_of(s: Seq<char>, c: char)
    ensures
        0 <= index_of(s, c) <= s.len(),
        index_of(s, c) < s.len() ==> s[index_of(s, c)] == c,
        forall|k: int| 0 <= k < index_of(s, c) ==> s[k] != c,
    decreases s.len(),
{
    if s.len() == 0 || s[0] == c {
    } else {
        lemma_index_of(s.skip(1), c);
        assert forall|k: int| 0 <= k < index_of(s, c) implies s[k] != c by {
            if k > 0 {
                assert(s.skip(1)[k - 1] == s[k]);
            }
        }
    }
}

proof fn lemma_index_of_is(s: Seq<char>, c: char, i: int)
    requires
        0 <= i <= s.len(),
        i < s.len() ==> s[i] == c,
        forall|k: int| 0 <= k < i ==> s[k] != c,
    ensures
        index_of(s, c) == i,
    decreases s.len(),
{
    if s.len() > 0 && i > 0 {
        lemma_index_of_is(s.skip(1), c, i - 1);
    }
}

/// The position of the first `c` from `from` on, or the length.
fn index_from(v: &Vec<char>, c: char, from: usize) -> (i: usize)
    requires
        from <= v.len(),
    ensures
        from <= i <= v.len(),
        i - from == index_of(v@.skip(from as int), c),
{
    let mut i: usize = from;
    while i < v.len() && v[i] != c
        invariant
            from <= i <= v.len(),
            forall|k: int| from <= k < i ==> v@[k] != c,
        decreases v.len() - i,
    {
        i += 1;
    }
    proof {
        lemma_index_of_is(v@.skip(from as int), c, i - from);
    }
    i
}

/// The pieces of `s` between the characters `c`, as `str::split` gives them.
pub open spec fn pieces(s: Seq<char>, c: char) -> Seq<Seq<char>>
    decreases s.len(),
{
    let i = index_of(s, c);
    if 0 <= i < s.len() {
        seq![s.take(i)] + pieces(s.skip(i + 1), c)
    } else {
        seq![s]
    }
}

/// A text up to the first `c` is the first piece, and what follows it gives the others.
pub proof fn pieces_of_joined(a: Seq<char>, c: char, b: Seq<char>)
    requires
        !a.contains(c),
    ensures
        pieces(a + seq![c] + b, c) == seq![a] + pieces(b, c),
        pieces(a, c) == seq![a],
{
    let s = a + seq![c] + b;
    lemma_index_of_is(s, c, a.len() as int);
    assert(s.take(a.len() as int) =~= a);
    assert(s.skip(a.len() + 1int) =~= b);
    lemma_index_of_is(a, c, a.len() as int);
}

/// `str::split` at a character.
pub fn split<'a>(s: &'a str, c: char) -> (r: Vec<&'a str>)
    ensures
        texts(r@) == pieces(s@, c),
{
    let v: Vec<char> = chars_of(s);
    let mut out: Vec<&'a str> = Vec::new();
    let mut from: usize = 0;
    assert(s@.skip(0) =~= s@);
    assert(texts(out@) =~= Seq::<Seq<char>>::empty());
    assert(texts(out@) + pieces(s@, c) =~= pieces(s@, c));
    loop
        invariant_except_break
            from <= v.len(),
            pieces(s@, c) == texts(out@) + pieces(s@.skip(from as int), c),
        invariant
            v@ == s@,
        ensures
            texts(out@) == pieces(s@, c),
        decreases v.len() - from,
    {
        let i: usize = index_from(&v, c, from);
        let ghost before = out@;
        let ghost rest = s@.skip(from as int);
        if i < v.len() {
            let piece: &'a str = s.substring_char(from, i);
            out.push(piece);
            proof {
                assert(rest.take(i - from) =~= piece@);
                assert(rest.skip(i - from + 1) =~= s@.skip(i + 1));
                assert(texts(out@) =~= texts(before).push(piece@));
                assert(texts(out@) + pieces(s@.skip(i + 1), c) =~= texts(before) + (seq![piece@]
                    + pieces(s@.skip(i + 1), c)));
            }
            from = i + 1;
        } else {
            let piece: &'a str = s.substring_char(from, i);
            out.push(piece);
            proof {
                assert(piece@ =~= rest);
                assert(texts(out@) =~= texts(before) + seq![rest]);
            }
            break;
        }
    }
    out
}

/// A line without the carriage return at its end.
pub open spec fn without_cr(s: Seq<char>) -> Seq<char> {
    if s.len() > 0 && s.last() == '\r' {
        s.drop_last()
    } else {
        s
    }
}

/// A line without any of the carriage returns at its end.
pub open spec fn without_crs(s: Seq<char>) -> Seq<char>
    decreases s.len(),
{
    if s.len() > 0 && s.last() == '\r' {
        without_crs(s.drop_last())
    } else {
        s
    }
}

/// The part of a line before the carriage returns at its end.
pub fn strip_crs<'a>(s: &'a str) -> (r: &'a str)
    ensures
        r@ == without_crs(s@),
{
    let v: Vec<char> = chars_of(s);
    let mut end: usize = v.len();
    assert(s@.take(end as int) =~= s@);
    while end > 0 && v[end - 1] == '\r'
        invariant
            end <= v.len(),
            v@ == s@,
            without_crs(s@.take(end as int)) == without_crs(s@),
        decreases end,
    {
        assert(s@.take(end as int).drop_last() =~= s@.take(end - 1));
        end -= 1;
    }
    let r: &'a str = s.substring_char(0, end);
    assert(r@ =~= s@.take(end as int));
    r
}

/// The lines of `s`, without their endings: a line ends with a line feed or with
/// a carriage return and a line feed, and the last one may have no ending.
pub open spec fn lines_of(s: Seq<char>) -> Seq<Seq<char>>
    decreases s.len(),
{
    let i = index_of(s, '\n');
    if s.len() == 0 {
        Seq::empty()
    } else if 0 <= i < s.len() {
        seq![without_cr(s.take(i))] + lines_of(s.skip(i + 1))
    } else {
        seq![s]
    }
}

/// Where a text has ended its last line, what follows it only adds lines.
pub proof fn lines_of_joined(s: Seq<char>, t: Seq<char>)
    requires
        s.len() == 0 || s.last() == '\n',
    ensures
        lines_of(s + t) == lines_of(s) + lines_of(t),
    decreases s.len(),
{
    if s.len() == 0 {
        assert(s + t =~= t);
        assert(lines_of(s) + lines_of(t) =~= lines_of(t));
    } else {
        lemma_index_of(s, '\n');
        let i = index_of(s, '\n');
        if i == s.len() {
            assert(s[s.len() - 1] != '\n');
        }
        lemma_index_of_is(s + t, '\n', i);
        let rest = s.skip(i + 1);
        assert((s + t).take(i) =~= s.take(i));
        assert((s + t).skip(i + 1) =~= rest + t);
        lines_of_joined(rest, t);
        assert(lines_of(s + t) =~= lines_of(s) + lines_of(t));
    }
}

/// A text without line ends, followed by one, is one line.
pub proof fn one_line(a: Seq<char>)
    requires
        !a.contains('\n'),
    ensures
        lines_of(a.push('\n')) == seq![without_cr(a)],
{
    let s = a.push('\n');
    lemma_index_of_is(s, '\n', a.len() as int);
    assert(s.take(a.len() as int) =~= a);
    assert(s.skip(a.len() + 1int) =~= Seq::<char>::empty());
    assert(lines_of(Seq::<char>::empty()) =~= Seq::<Seq<char>>::empty());
    assert(lines_of(s) =~= seq![without_cr(a)]);
}

/// A line end behind a text whose last line has none only ends that line, and may then be
/// what takes a carriage return from it.
pub proof fn a_line_end_ends_the_last_line(s: Seq<char>)
    requires
        s.len() > 0,
        s.last() != '\n',
    ensures
        lines_of(s).len() > 0,
        lines_of(s.push('\n')) == lines_of(s).drop_last().push(without_cr(lines_of(s).last())),
    decreases s.len(),
{
    lemma_index_of(s, '\n');
    let i = index_of(s, '\n');
    if i < s.len() {
        let rest = s.skip(i + 1);
        let t = s.push('\n');
        assert(rest.len() > 0 && rest.last() == s.last());
        a_line_end_ends_the_last_line(rest);
        lemma_index_of_is(t, '\n', i);
        assert(t.take(i) =~= s.take(i));
        assert(t.skip(i + 1) =~= rest.push('\n'));
        let first = seq![without_cr(s.take(i))];
        let more = lines_of(rest);
        assert(lines_of(s) == first + more);
        assert((first + more).drop_last().push(without_cr((first + more).last())) =~= first
            + more.drop_last().push(without_cr(more.last())));
    } else {
        assert(!s.contains('\n'));
        one_line(s);
        assert(lines_of(s) == seq![s]);
        assert(seq![s].drop_last().push(without_cr(s)) =~= seq![without_cr(s)]);
    }
}

/// `str::lines`.
pub fn lines<'a>(s: &'a str) -> (r: Vec<&'a str>)
    ensures
        texts(r@) == lines_of(s@),
{
    let v: Vec<char> = chars_of(s);
    let mut out: Vec<&'a str> = Vec::new();
    let mut from: usize = 0;
    assert(s@.skip(0) =~= s@);
    assert(texts(out@) =~= Seq::<Seq<char>>::empty());
    assert(texts(out@) + lines_of(s@) =~= lines_of(s@));
    while from < v.len()
        invariant
            v@ == s@,
            from <= v.len(),
            lines_of(s@) == texts(out@) + lines_of(s@.skip(from as int)),
        decreases v.len() - from,
    {
        let i: usize = index_from(&v, '\n', from);
        let ghost before = out@;
        let ghost rest = s@.skip(from as int);
        if i < v.len() {
            let end: usize = if i > from && v[i - 1] == '\r' {
                i - 1
            } else {
                i
            };
            let piece: &'a str = s.substring_char(from, end);
            out.push(piece);
            proof {
                let line = rest.take(i - from);
                if i > from {
                    assert(line.last() == v@[i - 1]);
                }
                assert(without_cr(line) =~= piece@);
                assert(rest.skip(i - from + 1) =~= s@.skip(i + 1));
                assert(texts(out@) =~= texts(before).push(piece@));
                assert(texts(out@) + lines_of(s@.skip(i + 1)) =~= texts(before) + (seq![piece@]
                    + lines_of(s@.skip(i + 1))));
            }
            from = i + 1;
        } else {
            let piece: &'a str = s.substring_char(from, i);
            out.push(piece);
            proof {
                assert(piece@ =~= rest);
                assert(texts(out@) =~= texts(before) + seq![rest]);
                assert(s@.skip(i as int) =~= Seq::<char>::empty());
                assert(lines_of(s@.skip(i as int)) =~= Seq::<Seq<char>>::empty());
                assert(texts(out@) + lines_of(s@.skip(i as int)) =~= texts(out@));
            }
            from = i;
        }
    }
    proof {
        assert(s@.skip(from as int) =~= Seq::<char>::empty());
        assert(texts(out@) + lines_of(s@.skip(from as int)) =~= texts(out@));
    }
    out
}

/// How many characters stand in `s` before the first white space.
pub open spec fn word_len(s: Seq<char>) -> int
    decreases s.len(),
{
    if s.len() == 0 || is_white(s[0]) {
        0
    } else {
        1 + word_len(s.skip(1))
    }
}

proof fn lemma_word_len_is(s: Seq<char>, n: int)
    requires
        0 <= n <= s.len(),
        n < s.len() ==> is_white(s[n]),
        forall|k: int| 0 <= k < n ==> !is_white(s[k]),
    ensures
        word_len(s) == n,
    decreases s.len(),
{
    if s.len() > 0 && n > 0 {
        lemma_word_len_is(s.skip(1), n - 1);
    }
}

/// The words of `s`: its longest runs of characters that are no white space.
pub open spec fn words_of(s: Seq<char>) -> Seq<Seq<char>>
    decreases s.len(),
{
    let t = trimmed_start(s);
    if 0 < word_len(t) <= t.len() && t.len() <= s.len() {
        seq![t.take(word_len(t))] + words_of(t.skip(word_len(t)))
    } else {
        Seq::empty()
    }
}

/// `str::split_whitespace`.
pub fn split_whitespace<'a>(s: &'a str) -> (r: Vec<&'a str>)
    ensures
        texts(r@) == words_of(s@),
{
    let v: Vec<char> = chars_of(s);
    let mut out: Vec<&'a str> = Vec::new();
    let mut from: usize = 0;
    assert(s@.skip(0) =~= s@);
    assert(texts(out@) =~= Seq::<Seq<char>>::empty());
    assert(texts(out@) + words_of(s@) =~= words_of(s@));
    loop
        invariant
            v@ == s@,
            from <= v.len(),
            words_of(s@) == texts(out@) + words_of(s@.skip(from as int)),
        ensures
            texts(out@) == words_of(s@),
        decreases v.len() - from,
    {
        let ghost rest = s@.skip(from as int);
        let ghost before = out@;
        let mut a: usize = from;
        while a < v.len() && is_whitespace(v[a])
            invariant
                v@ == s@,
                from <= a <= v.len(),
                trimmed_start(s@.skip(from as int)) == trimmed_start(s@.skip(a as int)),
            decreases v.len() - a,
        {
            assert(s@.skip(a as int).skip(1) =~= s@.skip(a + 1));
            a += 1;
        }
        let ghost t = s@.skip(a as int);
        assert(trimmed_start(rest) == t);
        let mut b: usize = a;
        while b < v.len() && !is_whitespace(v[b])
            invariant
                v@ == s@,
                a <= b <= v.len(),
                forall|k: int| a <= k < b ==> !is_white(v@[k]),
            decreases v.len() - b,
        {
            b += 1;
        }
        proof {
            lemma_word_len_is(t, b - a);
        }
        if b > a {
            let word: &'a str = s.substring_char(a, b);
            out.push(word);
            proof {
                assert(t.take(b - a) =~= word@);
                assert(t.skip(b - a) =~= s@.skip(b as int));
                assert(texts(out@) =~= texts(before).push(word@));
                assert(texts(out@) + words_of(s@.skip(b as int)) =~= texts(before) + (seq![word@]
                    + words_of(s@.skip(b as int))));
            }
            from = b;
        } else {
            proof {
                assert(words_of(rest) =~= Seq::<Seq<char>>::empty());
                assert(texts(out@) + words_of(rest) =~= texts(out@));
            }
            break;
        }
    }
    out
}

// ---------------------------------------------------------------------------
// Numbers
// ---------------------------------------------------------------------------

/// Whether `s` is a run of at least one digit of the radix.
pub open spec fn all_digits(s: Seq<char>, radix: int) -> bool {
    s.len() > 0 && forall|i: int| 0 <= i < s.len() ==> #[trigger] digit_value(s[i]) < radix
}

/// The number that a run of digits stands for.
pub open spec fn digits_value(s: Seq<char>, radix: int) -> int
    decreases s.len(),
{
    if s.len() == 0 {
        0
    } else {
        digits_value(s.drop_last(), radix) * radix + digit_value(s.last())
    }
}

/// The number that a text stands for: digits of the radix, with or without a
/// `+` in front, that make a number no greater than `max`.
pub open spec fn parsed(s: Seq<char>, radix: int, max: int) -> Option<int> {
    let d = if s.len() > 0 && s[0] == '+' {
        s.skip(1)
    } else {
        s
    };
    if all_digits(d, radix) && digits_value(d, radix) <= max {
        Some(digits_value(d, radix))
    } else {
        None
    }
}

/// The signed number that a decimal text stands for: as `parsed`, or digits with
/// a `-` in front that make a number no less than `min`.
pub open spec fn parsed_signed(s: Seq<char>, min: int, max: int) -> Option<int> {
    if s.len() > 0 && s[0] == '-' {
        let d = s.skip(1);
        if all_digits(d, 10) && min <= -digits_value(d, 10) {
            Some(-digits_value(d, 10))
        } else {
            None
        }
    } else {
        parsed(s, 10, max)
    }
}

proof fn lemma_digits_prefix(s: Seq<char>, radix: int, n: int)
    requires
        0 <= n <= s.len(),
        radix >= 1,
    ensures
        0 <= digits_value(s.take(n), radix) <= digits_value(s, radix),
    decreases s.len(),
{
    if s.len() == 0 {
        assert(s.take(n) =~= s);
    } else {
        let t = s.drop_last();
        if n == s.len() {
            assert(s.take(n) =~= s);
            lemma_digits_prefix(t, radix, t.len() as int);
            assert(t.take(t.len() as int) =~= t);
            assert(digits_value(t, radix) * radix >= 0) by (nonlinear_arith)
                requires
                    digits_value(t, radix) >= 0,
                    radix >= 1,
            ;
        } else {
            lemma_digits_prefix(t, radix, n);
            assert(t.take(n) =~= s.take(n));
            assert(digits_value(t, radix) * radix >= digits_value(t, radix)) by (nonlinear_arith)
                requires
                    digits_value(t, radix) >= 0,
                    radix >= 1,
            ;
        }
    }
}

/// The number that the characters from `from` on stand for, if they are digits
/// that make one no greater than `max`.
fn digits_from(v: &Vec<char>, from: usize, radix: u64, max: u64) -> (r: Option<u64>)
    requires
        from <= v.len(),
        1 <= radix <= 36,
    ensures
        ({
            let d = v@.skip(from as int);
            match r {
                Some(n) => all_digits(d, radix as int) && digits_value(d, radix as int) == n && n
                    <= max,
                None => !(all_digits(d, radix as int) && digits_value(d, radix as int) <= max),
            }
        }),
{
    let ghost d = v@.skip(from as int);
    let mut acc: u64 = 0;
    let mut i: usize = from;
    if i == v.len() {
        return None;
    }
    while i < v.len()
        invariant
            from <= i <= v.len(),
            1 <= radix <= 36,
            d == v@.skip(from as int),
            acc == digits_value(d.take(i - from), radix as int),
            acc <= max,
            forall|k: int| 0 <= k < i - from ==> #[trigger] digit_value(d[k]) < radix,
        decreases v.len() - i,
    {
        let x: u64 = digit_of(v[i]);
        assert(d[i - from] == v@[i as int]);
        if x >= radix {
            return None;
        }
        assert(acc * radix <= 0xFFFF_FFFF_FFFF_FFFF * 36) by (nonlinear_arith)
            requires
                acc <= 0xFFFF_FFFF_FFFF_FFFF,
                radix <= 36,
        ;
        let wide: u128 = acc as u128 * radix as u128 + x as u128;
        proof {
            assert(d.take(i - from + 1).drop_last() =~= d.take(i - from));
            lemma_digits_prefix(d, radix as int, i - from + 1);
        }
        if wide > max as u128 {
            return None;
        }
        acc = wide as u64;
        i += 1;
    }
    assert(d.take(v.len() - from) =~= d);
    Some(acc)
}

/// `from_str_radix` of an unsigned integer type whose greatest value is `max`.
pub fn parse_radix(s: &str, radix: u64, max: u64) -> (r: Option<u64>)
    requires
        1 <= radix <= 36,
    ensures
        match r {
            Some(n) => parsed(s@, radix as int, max as int) == Some(n as int),
            None => parsed(s@, radix as int, max as int) is None,
        },
{
    let v: Vec<char> = chars_of(s);
    let from: usize = if v.len() > 0 && v[0] == '+' {
        1
    } else {
        0
    };
    assert(s@.skip(0) =~= s@);
    digits_from(&v, from, radix, max)
}

/// `str::parse` to a `u8`.
pub fn parse_u8(s: &str) -> (r: Option<u8>)
    ensures
        match r {
            Some(n) => parsed(s@, 10, 255) == Some(n as int),
            None => parsed(s@, 10, 255) is None,
        },
{
    match parse_radix(s, 10, 255) {
        Some(n) => Some(n as u8),
        None => None,
    }
}

/// `str::parse` to a `u32`.
pub fn parse_u32(s: &str) -> (r: Option<u32>)
    ensures
        match r {
            Some(n) => parsed(s@, 10, 0xFFFF_FFFF) == Some(n as int),
            None => parsed(s@, 10, 0xFFFF_FFFF) is None,
        },
{
    match parse_radix(s, 10, 0xFFFF_FFFF) {
        Some(n) => Some(n as u32),
        None => None,
    }
}

/// `str::parse` to a signed integer type with the least value `min` and the
/// greatest value `max`.
pub fn parse_signed(s: &str, min: i64, max: i64) -> (r: Option<i64>)
    requires
        min < 0 <= max,
    ensures
        match r {
            Some(n) => parsed_signed(s@, min as int, max as int) == Some(n as int) && min <= n
                <= max,
            None => parsed_signed(s@, min as int, max as int) is None,
        },
{
    let v: Vec<char> = chars_of(s);
    if v.len() > 0 && v[0] == '-' {
        let least: u64 = (-(min + 1)) as u64 + 1;
        match digits_from(&v, 1, 10, least) {
            Some(n) => {
                if n == 0x8000_0000_0000_0000 {
                    Some(i64::MIN)
                } else {
                    Some(-(n as i64))
                }
            },
            None => None,
        }
    } else {
        match parse_radix(s, 10, max as u64) {
            Some(n) => Some(n as i64),
            None => None,
        }
    }
}

/// The decimal digits of a number.
pub open spec fn decimal(n: nat) -> Seq<char>
    decreases n,
{
    if n < 10 {
        seq![digit_char(n as int)]
    } else {
        decimal(n / 10).push(digit_char((n % 10) as int))
    }
}

/// The decimal of a number is made of digits.
pub proof fn decimal_is_digits(n: nat)
    ensures
        decimal(n).len() > 0,
        forall|i: int| 0 <= i < decimal(n).len() ==> is_digit(#[trigger] decimal(n)[i]),
    decreases n,
{
    if n >= 10 {
        decimal_is_digits(n / 10);
    }
}

/// Different numbers have different decimals.
pub proof fn decimal_tells_numbers_apart(a: nat, b: nat)
    requires
        decimal(a) == decimal(b),
    ensures
        a == b,
    decreases a,
{
    assert(decimal(a).last() == digit_char((a % 10) as int));
    assert(decimal(b).last() == digit_char((b % 10) as int));
    if a >= 10 {
        lemma_decimal_not_empty(a / 10);
        assert(decimal(a).drop_last() =~= decimal(a / 10));
        if b >= 10 {
            assert(decimal(b).drop_last() =~= decimal(b / 10));
            decimal_tells_numbers_apart(a / 10, b / 10);
        }
    } else if b >= 10 {
        lemma_decimal_not_empty(b / 10);
    }
}

proof fn lemma_decimal_not_empty(n: nat)
    ensures
        decimal(n).len() > 0,
{
}

/// The decimal digits of a signed number, with a `-` in front of a negative one.
pub open spec fn signed_decimal(n: int) -> Seq<char> {
    if n < 0 {
        seq!['-'] + decimal((-n) as nat)
    } else {
        decimal(n as nat)
    }
}

/// A number in decimal digits.
pub fn decimal_of(n: u64) -> (s: String)
    ensures
        s@ == decimal(n as nat),
    decreases n,
{
    if n < 10 {
        let mut s: String = String::new();
        s.push(char_of_digit(n as u8));
        assert(s@ =~= seq![digit_char(n as int)]);
        s
    } else {
        let mut s: String = decimal_of(n / 10);
        s.push(char_of_digit((n % 10) as u8));
        s
    }
}

/// A signed number in decimal digits.
pub fn signed_decimal_of(n: i64) -> (s: String)
    ensures
        s@ == signed_decimal(n as int),
{
    if n < 0 {
        let mut s: String = String::new();
        s.push('-');
        let magnitude: u64 = (-(n + 1)) as u64 + 1;
        s.append(decimal_of(magnitude).as_str());
        assert(s@ =~= signed_decimal(n as int));
        s
    } else {
        decimal_of(n as u64)
    }
}

/// The last `width` hexadecimal digits of a number, in lower case.
pub open spec fn hex_digits(n: nat, width: nat) -> Seq<char>
    decreases width,
{
    if width == 0 {
        Seq::empty()
    } else {
        hex_digits(n / 16, (width - 1) as nat).push(digit_char((n % 16) as int))
    }
}

/// The last `width` hexadecimal digits of a number, with zeros in front where it has fewer.
pub fn hex_of(n: u64, width: usize) -> (s: String)
    ensures
        s@ == hex_digits(n as nat, width as nat),
    decreases width,
{
    if width == 0 {
        String::new()
    } else {
        let mut s: String = hex_of(n / 16, width - 1);
        s.push(char_of_digit((n % 16) as u8));
        s
    }
}

/// The hexadecimal digits of a number are digits, and stand for the number where there are
/// enough of them.
pub proof fn hex_digits_stand_for_the_number(n: nat, width: nat)
    requires
        n < vstd::arithmetic::power::pow(16, width),
    ensures
        hex_digits(n, width).len() == width,
        forall|i: int|
            0 <= i < width ==> #[trigger] digit_value(hex_digits(n, width)[i]) < 16,
        digits_value(hex_digits(n, width), 16) == n,
    decreases width,
{
    reveal(vstd::arithmetic::power::pow);
    if width > 0 {
        let w = (width - 1) as nat;
        let p = vstd::arithmetic::power::pow(16, w);
        assert(vstd::arithmetic::power::pow(16, width) == 16 * p);
        assert((n / 16) < p);
        hex_digits_stand_for_the_number(n / 16, w);
        let front = hex_digits(n / 16, w);
        let d = digit_char((n % 16) as int);
        assert(digit_value(d) == n % 16);
        assert(front.push(d).drop_last() =~= front);
        assert forall|i: int| 0 <= i < width implies #[trigger] digit_value(
            hex_digits(n, width)[i],
        ) < 16 by {
            if i < w {
                assert(digit_value(front[i]) < 16);
            }
        }
    }
}

// ---------------------------------------------------------------------------
// Bytes
// ---------------------------------------------------------------------------

/// How many bytes a character takes in UTF-8.
pub open spec fn char_bytes(c: char) -> int {
    let n = c as u32;
    if n < 0x80 {
        1
    } else if n < 0x800 {
        2
    } else if n < 0x10000 {
        3
    } else {
        4
    }
}

/// How many bytes a text takes in UTF-8.
pub open spec fn byte_len(s: Seq<char>) -> int
    decreases s.len(),
{
    if s.len() == 0 {
        0
    } else {
        char_bytes(s[0]) + byte_len(s.skip(1))
    }
}

/// How many bytes a text takes in UTF-8.
pub fn byte_count(s: &str) -> (n: usize)
    ensures
        n == byte_len(s@),
{
    proof {
        byte_len_is_encoded_len(s@);
    }
    s.as_bytes().len()
}

/// How many leading characters of `s` fit into `max` bytes.
pub open spec fn fitting(s: Seq<char>, max: int) -> int
    decreases s.len(),
{
    if s.len() > 0 && char_bytes(s[0]) <= max {
        1 + fitting(s.skip(1), max - char_bytes(s[0]))
    } else {
        0
    }
}

/// The count of bytes that `str::len` gives.
pub proof fn byte_len_is_encoded_len(s: Seq<char>)
    ensures
        byte_len(s) == encode_utf8(s).len(),
    decreases s.len(),
{
    if s.len() > 0 {
        byte_len_is_encoded_len(s.skip(1));
        char_is_scalar(s[0]);
        assert(s.skip(1) =~= s.drop_first());
    }
}

proof fn lemma_fitting(s: Seq<char>, max: int)
    requires
        0 <= max,
    ensures
        0 <= fitting(s, max) <= s.len(),
        byte_len(s.take(fitting(s, max))) <= max,
    decreases s.len(),
{
    if s.len() > 0 && char_bytes(s[0]) <= max {
        lemma_fitting(s.skip(1), max - char_bytes(s[0]));
        let n = fitting(s, max);
        assert(s.take(n).skip(1) =~= s.skip(1).take(n - 1));
    } else {
        assert(s.take(0) =~= Seq::<char>::empty());
    }
}

/// How many leading characters fit into `max` bytes.
pub fn fitting_chars(s: &str, max: usize) -> (n: usize)
    ensures
        n == fitting(s@, max as int),
        n <= s@.len(),
        byte_len(s@.take(n as int)) <= max,
{
    let v: Vec<char> = chars_of(s);
    let mut n: usize = 0;
    let mut room: usize = max;
    assert(s@.skip(0) =~= s@);
    proof {
        lemma_fitting(s@, max as int);
    }
    while n < v.len()
        invariant
            n <= v.len(),
            v@ == s@,
            0 <= fitting(s@, max as int) <= s@.len(),
            byte_len(s@.take(fitting(s@, max as int))) <= max,
            fitting(s@, max as int) == n + fitting(s@.skip(n as int), room as int),
        decreases v.len() - n,
    {
        let code: u32 = v[n] as u32;
        let size: usize = if code < 0x80 {
            1
        } else if code < 0x800 {
            2
        } else if code < 0x10000 {
            3
        } else {
            4
        };
        assert(s@.skip(n as int).skip(1) =~= s@.skip(n + 1));
        if size > room {
            return n;
        }
        room -= size;
        n += 1;
    }
    n
}

/// What `String::from_utf8_lossy` makes of bytes that are not valid UTF-8.
pub uninterp spec fn repaired_utf8(bytes: Seq<u8>) -> Seq<char>;

/// The text that bytes stand for: their characters where they are valid UTF-8.
pub open spec fn lossy_text(bytes: Seq<u8>) -> Seq<char> {
    if valid_utf8(bytes) {
        decode_utf8(bytes)
    } else {
        repaired_utf8(bytes)
    }
}

/// `String::from_utf8_lossy`. Of valid UTF-8 it gives the characters; what it puts in
/// place of bytes that are not valid UTF-8 is named, not stated.
#[verifier::external_body]
pub(crate) fn lossy(bytes: &Vec<u8>) -> (r: String)
    ensures
        valid_utf8(bytes@) ==> r@ == decode_utf8(bytes@),
        !valid_utf8(bytes@) ==> r@ == repaired_utf8(bytes@),
{
    String::from_utf8_lossy(bytes.as_slice()).into_owned()
}

// ---------------------------------------------------------------------------
// Letter case
// ---------------------------------------------------------------------------

/// An ASCII capital as its small letter; any other character as it is.
pub open spec fn ascii_lower_char(c: char) -> char {
    if 'A' <= c <= 'Z' {
        (c as int + 32) as char
    } else {
        c
    }
}

/// An ASCII small letter as its capital; any other character as it is.
pub open spec fn ascii_upper_char(c: char) -> char {
    if 'a' <= c <= 'z' {
        (c as int - 32) as char
    } else {
        c
    }
}

/// What `str::to_lowercase` makes of a text that is not all ASCII.
pub uninterp spec fn unicode_lowercase(s: Seq<char>) -> Seq<char>;

/// What `str::to_uppercase` makes of a text that is not all ASCII.
pub uninterp spec fn unicode_uppercase(s: Seq<char>) -> Seq<char>;

/// A text with its ASCII capitals made small; nothing else changes.
pub open spec fn ascii_lower(s: Seq<char>) -> Seq<char> {
    s.map_values(|c: char| ascii_lower_char(c))
}

/// A text with its ASCII small letters made capitals; nothing else changes.
pub open spec fn ascii_upper(s: Seq<char>) -> Seq<char> {
    s.map_values(|c: char| ascii_upper_char(c))
}

/// The small-letter form of a text: its ASCII capitals are made small, and then, where the
/// text is not all ASCII, the other capitals.
pub open spec fn lower(s: Seq<char>) -> Seq<char> {
    if is_ascii_chars(s) {
        ascii_lower(s)
    } else {
        unicode_lowercase(ascii_lower(s))
    }
}

/// The capital-letter form of a text.
pub open spec fn upper(s: Seq<char>) -> Seq<char> {
    if is_ascii_chars(s) {
        ascii_upper(s)
    } else {
        unicode_uppercase(s)
    }
}

/// `str::to_lowercase`. Of an all-ASCII text each capital becomes its small
/// letter and nothing else changes; the Unicode mapping of any other text is
/// named, not stated.
#[verifier::external_body]
fn to_lowercase(s: &str) -> (r: String)
    ensures
        is_ascii_chars(s@) ==> r@ == s@.map_values(|c: char| ascii_lower_char(c)),
        !is_ascii_chars(s@) ==> r@ == unicode_lowercase(s@),
{
    s.to_lowercase()
}

/// `str::to_uppercase`. Of an all-ASCII text each small letter becomes its
/// capital and nothing else changes; the Unicode mapping of any other text is
/// named, not stated.
#[verifier::external_body]
pub(crate) fn to_uppercase(s: &str) -> (r: String)
    ensures
        is_ascii_chars(s@) ==> r@ == s@.map_values(|c: char| ascii_upper_char(c)),
        !is_ascii_chars(s@) ==> r@ == unicode_uppercase(s@),
{
    s.to_uppercase()
}

fn char_to_ascii_lower(c: char) -> (r: char)
    ensures
        r == ascii_lower_char(c),
{
    if 'A' <= c && c <= 'Z' {
        (c as u8 + 32u8) as char
    } else {
        c
    }
}

fn to_ascii_lower(s: &str) -> (r: String)
    ensures
        r@ == ascii_lower(s@),
{
    let v: Vec<char> = chars_of(s);
    let mut r: String = String::new();
    let mut i: usize = 0;
    assert(r@ =~= ascii_lower(s@.take(0)));
    while i < v.len()
        invariant
            i <= v.len(),
            v@ == s@,
            r@ == ascii_lower(s@.take(i as int)),
        decreases v.len() - i,
    {
        r.push(char_to_ascii_lower(v[i]));
        assert(r@ =~= ascii_lower(s@.take(i + 1)));
        i += 1;
    }
    assert(s@.take(i as int) =~= s@);
    r
}

/// The small-letter form of a text. The ASCII capitals are made small before
/// `str::to_lowercase` sees the text, so that they cannot tell two texts apart.
pub fn lowercase(s: &str) -> (r: String)
    ensures
        r@ == lower(s@),
{
    proof {
        lemma_ascii_lower(s@);
        lemma_ascii_lower(ascii_lower(s@));
    }
    to_lowercase(to_ascii_lower(s).as_str())
}

proof fn lemma_ascii_lower(s: Seq<char>)
    ensures
        ascii_lower(s).len() == s.len(),
        is_ascii_chars(ascii_lower(s)) <==> is_ascii_chars(s),
        ascii_lower(ascii_lower(s)) == ascii_lower(s),
{
    let low = ascii_lower(s);
    assert forall|i: int| 0 <= i < s.len() implies (('\0' <= #[trigger] low[i] <= '\u{7f}') <==> (
    '\0' <= s[i] <= '\u{7f}')) by {}
    if is_ascii_chars(low) {
        assert forall|i: int| 0 <= i < s.len() implies '\0' <= #[trigger] s[i] <= '\u{7f}' by {
            assert('\0' <= low[i] <= '\u{7f}');
        }
    }
    if is_ascii_chars(s) {
        assert forall|i: int| 0 <= i < s.len() implies '\0' <= #[trigger] low[i] <= '\u{7f}' by {
            assert('\0' <= s[i] <= '\u{7f}');
        }
    }
    assert(ascii_lower(low) =~= low);
}

/// The small-letter form of a text is the same whichever of its ASCII letters are
/// capitals. Of an ASCII text it is ASCII too, as long as the text, and its own
/// small-letter form.
pub proof fn lower_forgets_case(s: Seq<char>)
    ensures
        lower(ascii_upper(s)) == lower(s),
        lower(ascii_lower(s)) == lower(s),
        is_ascii_chars(s) ==> {
            &&& is_ascii_chars(lower(s))
            &&& lower(s).len() == s.len()
            &&& lower(lower(s)) == lower(s)
            &&& lower(upper(s)) == lower(s)
        },
{
    let up = ascii_upper(s);
    lemma_ascii_lower(s);
    lemma_ascii_lower(up);
    assert(ascii_lower(up) =~= ascii_lower(s));
}

/// Digits stand for the same in either case.
pub proof fn digits_forget_case(s: Seq<char>, radix: int)
    requires
        is_ascii_chars(s),
    ensures
        all_digits(s, radix) <==> all_digits(lower(s), radix),
        digits_value(s, radix) == digits_value(lower(s), radix),
    decreases s.len(),
{
    assert forall|i: int| 0 <= i < s.len() implies #[trigger] digit_value(lower(s)[i])
        == digit_value(s[i]) by {}
    if all_digits(lower(s), radix) {
        assert forall|i: int| 0 <= i < s.len() implies #[trigger] digit_value(s[i]) < radix by {
            assert(digit_value(lower(s)[i]) < radix);
        }
    }
    if s.len() > 0 {
        let front = s.drop_last();
        assert forall|i: int| 0 <= i < front.len() implies '\0' <= #[trigger] front[i]
            <= '\u{7f}' by {
            assert('\0' <= s[i] <= '\u{7f}');
        }
        digits_forget_case(front, radix);
        assert(lower(s).drop_last() =~= lower(front));
        assert(digit_value(lower(s)[s.len() - 1]) == digit_value(s[s.len() - 1]));
    }
}

/// Whether a character is shown as it is in a quoted text.
pub open spec fn is_plain(c: char) -> bool {
    ' ' <= c <= '~' && c != '"' && c != '\\'
}

/// What the `Debug` form of a text is where the text has characters to escape.
pub uninterp spec fn escaped_text(s: Seq<char>) -> Seq<char>;

/// A text in quotes, with what must be escaped in it escaped.
pub open spec fn quoted(s: Seq<char>) -> Seq<char> {
    if forall|i: int| 0 <= i < s.len() ==> is_plain(#[trigger] s[i]) {
        seq!['"'] + s + seq!['"']
    } else {
        escaped_text(s)
    }
}

/// The `Debug` form of a `str`, as `format!` writes it. A text of printable ASCII without
/// quotes and backslashes stands as it is between quotes; the form of any other text is
/// named, not stated.
#[verifier::external_body]
pub(crate) fn quote(s: &str) -> (r: String)
    ensures
        (forall|i: int| 0 <= i < s@.len() ==> is_plain(#[trigger] s@[i])) ==> r@ == seq!['"']
            + s@ + seq!['"'],
        !(forall|i: int| 0 <= i < s@.len() ==> is_plain(#[trigger] s@[i])) ==> r@
            == escaped_text(s@),
{
    format!("{:?}", s)
}

// ---------------------------------------------------------------------------
// Laws
// ---------------------------------------------------------------------------

/// A pattern stands in every text that was put together with it: at the start, at the end
/// or in between.
pub proof fn a_pattern_is_found_where_it_was_put(a: Seq<char>, pat: Seq<char>, b: Seq<char>)
    ensures
        starts(pat + b, pat),
        ends(a + pat, pat),
        holds(a + pat + b, pat),
{
    assert((pat + b).subrange(0, pat.len() as int) =~= pat);
    assert((a + pat).subrange(a.len() as int, (a + pat).len() as int) =~= pat);
    let s = a + pat + b;
    assert(s.subrange(a.len() as int, a.len() + pat.len() as int) =~= pat);
    assert(matches_at(s, pat, a.len() as int));
}

/// Whether a text is another one with something in front and something behind.
pub open spec fn is_around(s: Seq<char>, a: Seq<char>, pat: Seq<char>, b: Seq<char>) -> bool {
    s == a + pat + b
}

/// A text that a pattern stands in is put together with it.
pub proof fn a_found_pattern_is_part_of_the_text(s: Seq<char>, pat: Seq<char>)
    ensures
        starts(s, pat) ==> s == pat + s.skip(pat.len() as int),
        ends(s, pat) ==> s == s.take(s.len() - pat.len()) + pat,
        holds(s, pat) ==> exists|a: Seq<char>, b: Seq<char>| #[trigger] is_around(s, a, pat, b),
{
    if starts(s, pat) {
        assert(s.subrange(0, pat.len() as int) + s.skip(pat.len() as int) =~= s);
    }
    if ends(s, pat) {
        assert(s.take(s.len() - pat.len()) + s.subrange(s.len() - pat.len(), s.len() as int) =~= s);
    }
    if holds(s, pat) {
        let i = choose|i: int| matches_at(s, pat, i);
        let (a, b) = (s.take(i), s.skip(i + pat.len() as int));
        assert(s =~= a + s.subrange(i, i + pat.len() as int) + b);
        assert(is_around(s, a, pat, b));
    }
}

/// A text is found at the first place where it stands.
pub proof fn a_search_stops_at_the_first_place(a: Seq<char>, pat: Seq<char>, b: Seq<char>)
    requires
        forall|k: int| 0 <= k < a.len() ==> !matches_at(a + pat + b, pat, k),
    ensures
        first_at(a + pat + b, pat, 0) == a.len(),
{
    let s = a + pat + b;
    assert(s.subrange(a.len() as int, a.len() + pat.len() as int) =~= pat);
    assert(matches_at(s, pat, a.len() as int));
    lemma_first_at(s, pat, 0);
    let at = first_at(s, pat, 0);
    if at < a.len() {
        assert(!matches_at(s, pat, at));
    }
    if at > a.len() {
        assert(!matches_at(s, pat, a.len() as int));
    }
}

proof fn lemma_decimal_value(n: nat)
    ensures
        digits_value(decimal(n), 10) == n,
        all_digits(decimal(n), 10),
    decreases n,
{
    decimal_is_digits(n);
    assert forall|i: int| 0 <= i < decimal(n).len() implies #[trigger] digit_value(decimal(n)[i])
        < 10 by {
        assert(is_digit(decimal(n)[i]));
    }
    if n < 10 {
        assert(decimal(n).drop_last() =~= Seq::<char>::empty());
        assert(digits_value(Seq::<char>::empty(), 10) == 0);
        assert(decimal(n).last() == digit_char(n as int));
    } else {
        lemma_decimal_value(n / 10);
        assert(decimal(n).drop_last() =~= decimal(n / 10));
        assert(decimal(n).last() == digit_char((n % 10) as int));
    }
}

/// A text without white space in it is not changed by trimming.
pub proof fn trimming_leaves_a_word(s: Seq<char>)
    requires
        forall|i: int| 0 <= i < s.len() ==> !is_white(#[trigger] s[i]),
    ensures
        trimmed(s) == s,
{
    if s.len() > 0 {
        assert(!is_white(s[0]));
        assert(!is_white(s.last()));
    }
}

/// What is left after trimming neither begins nor ends with white space.
pub proof fn nothing_is_left_to_trim(s: Seq<char>)
    ensures
        trimmed(s).len() > 0 ==> !is_white(trimmed(s)[0]) && !is_white(trimmed(s).last()),
        trimmed(trimmed(s)) == trimmed(s),
        trimmed(s).len() == 0 <==> is_blank(s),
{
    lemma_trim_ends(s);
    let t = trimmed(s);
    if t.len() > 0 {
        trimming_takes_the_padding(Seq::empty(), t, Seq::empty());
        assert(Seq::<char>::empty() + t + Seq::<char>::empty() =~= t);
    }
}

proof fn lemma_trim_ends(s: Seq<char>)
    ensures
        trimmed(s).len() > 0 ==> !is_white(trimmed(s)[0]) && !is_white(trimmed(s).last()),
        trimmed(s).len() == 0 <==> is_blank(s),
{
    lemma_trim_front(s);
    lemma_trim_back(trimmed_start(s));
}

proof fn lemma_trim_front(s: Seq<char>)
    ensures
        trimmed_start(s).len() > 0 ==> !is_white(trimmed_start(s)[0]),
        trimmed_start(s).len() == 0 <==> is_blank(s),
    decreases s.len(),
{
    if s.len() > 0 && is_white(s[0]) {
        lemma_trim_front(s.skip(1));
        if is_blank(s.skip(1)) {
            assert forall|i: int| 0 <= i < s.len() implies is_white(#[trigger] s[i]) by {
                if i > 0 {
                    assert(s.skip(1)[i - 1] == s[i]);
                }
            }
        }
        if is_blank(s) {
            assert forall|i: int| 0 <= i < s.skip(1).len() implies is_white(
                #[trigger] s.skip(1)[i],
            ) by {
                assert(s[i + 1] == s.skip(1)[i]);
            }
        }
    }
}

proof fn lemma_trim_back(s: Seq<char>)
    ensures
        trimmed_end(s).len() > 0 ==> !is_white(trimmed_end(s).last()),
        trimmed_end(s).len() > 0 ==> trimmed_end(s)[0] == s[0],
        s.len() > 0 && !is_white(s[0]) ==> trimmed_end(s).len() > 0,
        s.len() == 0 ==> trimmed_end(s).len() == 0,
    decreases s.len(),
{
    if s.len() > 0 && is_white(s.last()) {
        lemma_trim_back(s.drop_last());
    }
}

/// A number that was written in digits is read back as that number, where it is within the
/// bounds; a number beyond them is not read at all.
pub proof fn a_written_number_is_read_back(n: nat, max: int)
    ensures
        parsed(decimal(n), 10, max) == (if n <= max {
            Some(n as int)
        } else {
            None
        }),
        trimmed(decimal(n)) == decimal(n),
{
    lemma_decimal_value(n);
    decimal_is_digits(n);
    assert(is_digit(decimal(n)[0]));
    assert forall|i: int| 0 <= i < decimal(n).len() implies !is_white(#[trigger] decimal(n)[i]) by {
        assert(is_digit(decimal(n)[i]));
    }
    trimming_leaves_a_word(decimal(n));
}

/// A signed number that was written in digits is read back as that number, where it is
/// within the bounds.
pub proof fn a_written_signed_number_is_read_back(n: int, min: int, max: int)
    ensures
        n >= 0 || min <= n ==> parsed_signed(signed_decimal(n), min, max) == (if n <= max || n < 0 {
            Some(n)
        } else {
            None
        }),
        n < 0 && n < min ==> parsed_signed(signed_decimal(n), min, max) is None,
        trimmed(signed_decimal(n)) == signed_decimal(n),
{
    let s = signed_decimal(n);
    let m: nat = if n < 0 {
        (-n) as nat
    } else {
        n as nat
    };
    a_written_number_is_read_back(m, max);
    decimal_is_digits(m);
    lemma_decimal_value(m);
    assert(is_digit(decimal(m)[0]));
    if n < 0 {
        assert(s.skip(1) =~= decimal(m));
        assert(s[0] == '-');
    }
    assert forall|i: int| 0 <= i < s.len() implies !is_white(#[trigger] s[i]) by {
        if n < 0 && i > 0 {
            assert(is_digit(decimal(m)[i - 1]));
            assert(s[i] == decimal(m)[i - 1]);
        } else if n >= 0 {
            assert(is_digit(decimal(m)[i]));
        }
    }
    trimming_leaves_a_word(s);
}

/// A text in which anything but a digit stands, save a sign in front, is no number, and
/// neither is one without digits.
pub proof fn a_broken_number_is_not_read(s: Seq<char>, radix: int, max: int, i: int)
    requires
        s.len() == 0 || (0 <= i < s.len() && digit_value(s[i]) >= radix && !(i == 0 && s[0] == '+')),
    ensures
        parsed(s, radix, max) is None,
{
    if s.len() > 0 && s[0] == '+' {
        assert(s.skip(1)[i - 1] == s[i]);
    }
}

/// The words of a text: white space in front is passed over, a run of other characters is a
/// word, and what follows it gives the others. White space alone has no words.
pub proof fn words_are_what_stands_between_blanks(
    lead: Seq<char>,
    word: Seq<char>,
    rest: Seq<char>,
)
    requires
        is_blank(lead),
        word.len() > 0,
        forall|i: int| 0 <= i < word.len() ==> !is_white(#[trigger] word[i]),
        rest.len() > 0 ==> is_white(rest[0]),
    ensures
        words_of(lead + word + rest) == seq![word] + words_of(rest),
        words_of(lead) == Seq::<Seq<char>>::empty(),
{
    let s = lead + word + rest;
    lemma_skip_blank(lead, word + rest);
    assert(s =~= lead + (word + rest));
    let t = word + rest;
    assert(!is_white(t[0])) by {
        assert(t[0] == word[0]);
    }
    assert(trimmed_start(s) == t);
    assert forall|k: int| 0 <= k < word.len() implies !is_white(t[k]) by {
        assert(t[k] == word[k]);
    }
    lemma_word_len_is(t, word.len() as int);
    assert(t.take(word.len() as int) =~= word);
    assert(t.skip(word.len() as int) =~= rest);
    lemma_trim_front(lead);
    assert(trimmed_start(lead).len() == 0);
}

proof fn lemma_skip_blank(lead: Seq<char>, s: Seq<char>)
    requires
        is_blank(lead),
        s.len() > 0,
        !is_white(s[0]),
    ensures
        trimmed_start(lead + s) == s,
    decreases lead.len(),
{
    if lead.len() == 0 {
        assert(lead + s =~= s);
    } else {
        let l = lead.skip(1);
        assert((lead + s).skip(1) =~= l + s);
        assert(is_white(lead[0]));
        assert forall|i: int| 0 <= i < l.len() implies is_white(#[trigger] l[i]) by {
            assert(lead[i + 1] == l[i]);
        }
        lemma_skip_blank(l, s);
    }
}

/// The order of texts goes by the first character in which they differ; a text that another
/// begins with comes first.
pub proof fn the_first_difference_decides(
    common: Seq<char>,
    a: char,
    x: Seq<char>,
    b: char,
    y: Seq<char>,
)
    requires
        a != b,
    ensures
        precedes(common + seq![a] + x, common + seq![b] + y) <==> a < b,
        precedes(common, common + seq![a] + x),
        !precedes(common + seq![a] + x, common),
    decreases common.len(),
{
    let p = common + seq![a] + x;
    let q = common + seq![b] + y;
    if common.len() > 0 {
        let c = common.skip(1);
        the_first_difference_decides(c, a, x, b, y);
        assert(p.skip(1) =~= c + seq![a] + x);
        assert(q.skip(1) =~= c + seq![b] + y);
        assert(p[0] == common[0] && q[0] == common[0]);
    }
}

/// As many characters are kept as fit: one more would be too many.
pub proof fn no_character_that_fits_is_cut(s: Seq<char>, max: int)
    requires
        0 <= max,
    ensures
        0 <= fitting(s, max) <= s.len(),
        byte_len(s.take(fitting(s, max))) <= max,
        fitting(s, max) < s.len() ==> byte_len(s.take(fitting(s, max) + 1)) > max,
        byte_len(s) <= max ==> fitting(s, max) == s.len(),
    decreases s.len(),
{
    lemma_fitting(s, max);
    let n = fitting(s, max);
    if s.len() > 0 {
        let one = s.take(1);
        assert(one.skip(1) =~= Seq::<char>::empty());
        assert(byte_len(one.skip(1)) == 0);
        lemma_byte_len_positive(s.skip(1));
        if char_bytes(s[0]) <= max {
            no_character_that_fits_is_cut(s.skip(1), max - char_bytes(s[0]));
            assert(n < s.len() ==> s.take(n + 1).skip(1) =~= s.skip(1).take(n));
        }
    }
}

proof fn lemma_byte_len_positive(s: Seq<char>)
    ensures
        byte_len(s) >= s.len(),
    decreases s.len(),
{
    if s.len() > 0 {
        lemma_byte_len_positive(s.skip(1));
    }
}

/// The path of an entry is the path of its directory, one slash, and the name.
pub proof fn a_path_is_joined_by_one_slash(dir: Seq<char>, name: Seq<char>)
    requires
        dir.len() > 0,
        dir.last() != '/',
    ensures
        joined(dir, name) == dir + seq!['/'] + name,
        joined(dir + seq!['/'], name) == dir + seq!['/'] + name,
        joined(Seq::empty(), name) == name,
{
    assert(dir.push('/') =~= dir + seq!['/']);
    assert(Seq::<char>::empty() + name =~= name);
}

/// A list ascends where each text comes before the next: no text stands twice, and the
/// first is before all others.
pub proof fn an_ascending_list_has_no_repeats(v: Seq<Seq<char>>, i: int, j: int)
    requires
        ascending(v),
        0 <= i < v.len(),
        0 <= j < v.len(),
    ensures
        i != j ==> v[i] != v[j],
        i < j <==> precedes(v[i], v[j]),
{
    precedes_is_total(v[i], v[j]);
}

/// A list of one text ascends, and so does an ascending list with a greater text behind it.
pub proof fn a_greater_text_keeps_a_list_ascending(v: Seq<Seq<char>>, x: Seq<char>)
    requires
        ascending(v),
        forall|i: int| 0 <= i < v.len() ==> precedes(#[trigger] v[i], x),
    ensures
        ascending(v.push(x)),
{
}

/// Bytes of valid UTF-8 stand for the text whose encoding they are.
pub proof fn valid_bytes_stand_for_their_text(s: Seq<char>)
    ensures
        lossy_text(encode_utf8(s)) == s,
{
    encode_utf8_valid_utf8(s);
    encode_utf8_decode_utf8(s);
}

/// A list is seen item by item: as many, and each as what it holds.
pub proof fn lists_are_seen_item_by_item(
    v: Seq<String>,
    w: Seq<&str>,
    p: Seq<usize>,
    o: Option<&str>,
    i: int,
)
    ensures
        strings(v).len() == v.len(),
        0 <= i < v.len() ==> strings(v)[i] == v[i]@,
        texts(w).len() == w.len(),
        0 <= i < w.len() ==> texts(w)[i] == w[i]@,
        positions(p).len() == p.len(),
        0 <= i < p.len() ==> positions(p)[i] == p[i],
        opt_str(o) is Some <==> o is Some,
        o matches Some(s) ==> opt_str(o) == Some(s@),
{
}

/// Records are seen item by item.
pub proof fn records_are_seen_item_by_item<T: View>(v: Seq<T>, i: int)
    ensures
        views(v).len() == v.len(),
        0 <= i < v.len() ==> views(v)[i] == v[i]@,
{
}

/// A text that does not hold the mark is one piece, and one that holds it is more.
pub proof fn a_text_is_cut_at_every_mark(s: Seq<char>, c: char)
    ensures
        pieces(s, c).len() >= 1,
        !s.contains(c) ==> pieces(s, c) == seq![s],
        s.contains(c) ==> pieces(s, c).len() >= 2,
    decreases s.len(),
{
    lemma_index_of(s, c);
    let i = index_of(s, c);
    if i < s.len() {
        assert(s[i] == c);
        a_text_is_cut_at_every_mark(s.skip(i + 1), c);
    } else if s.contains(c) {
        let k = choose|k: int| 0 <= k < s.len() && s[k] == c;
        assert(s[k] != c);
    }
}

} // verus!
