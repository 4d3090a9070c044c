//! Text helpers over characters: trimming, searching, splitting, number
//! parsing and rendering, and UTF-8 lengths.

use vstd::prelude::*;
use vstd::string::StringExecFns;
use vstd::utf8::{decode_utf8, encode_scalar, encode_utf8, valid_utf8};

verus! {

/// `String::push` appends one character and changes nothing else.
pub assume_specification[ String::push ](s: &mut String, c: char)
    ensures
        final(s)@ == old(s)@.push(c),
;

/// The characters of `text`, in order.
pub fn chars_of(text: &str) -> (chars: Vec<char>)
    ensures
        chars@ == text@,
{
    let mut chars: Vec<char> = Vec::new();
    for c in it: text.chars()
        invariant
            it.seq() == text@,
            chars@ == text@.take(it.index()),
    {
        chars.push(c);
        assert(chars@ =~= text@.take(it.index() + 1));
    }
    assert(text@.take(text@.len() as int) =~= text@);
    chars
}

/// The text made of `chars[from..to]`.
pub fn text_of(chars: &Vec<char>, from: usize, to: usize) -> (text: String)
    requires
        from <= to <= chars@.len(),
    ensures
        text@ == chars@.subrange(from as int, to as int),
{
    let mut text = String::new();
    let mut i: usize = from;
    while i < to
        invariant
            from <= i <= to <= chars@.len(),
            text@ == chars@.subrange(from as int, i as int),
        decreases to - i,
    {
        text.push(chars[i]);
        i = i + 1;
        assert(text@ =~= chars@.subrange(from as int, i as int));
    }
    text
}


/// The code point of `c`.
pub fn code_of(c: char) -> (n: u32)
    ensures
        n == c as int,
{
    c as u32
}

/// Whether `c` has the Unicode `White_Space` property.
pub open spec fn is_space(c: char) -> bool {
    let n = c as int;
    9 <= n <= 13 || n == 0x20 || n == 0x85 || n == 0xA0 || n == 0x1680 || 0x2000 <= n <= 0x200A || n
        == 0x2028 || n == 0x2029 || n == 0x202F || n == 0x205F || n == 0x3000
}

pub fn char_is_space(c: char) -> (space: bool)
    ensures
        space == is_space(c),
{
    let n: u32 = code_of(c);
    (9 <= n && n <= 13) || n == 0x20 || n == 0x85 || n == 0xA0 || n == 0x1680 || (0x2000 <= n && n
        <= 0x200A) || n == 0x2028 || n == 0x2029 || n == 0x202F || n == 0x205F || n == 0x3000
}

/// `s` without its leading white space.
pub open spec fn trim_start(s: Seq<char>) -> Seq<char>
    decreases s.len(),
{
    if s.len() > 0 && is_space(s[0]) {
        trim_start(s.drop_first())
    } else {
        s
    }
}

/// `s` without its trailing white space.
pub open spec fn trim_end(s: Seq<char>) -> Seq<char>
    decreases s.len(),
{
    if s.len() > 0 && is_space(s.last()) {
        trim_end(s.drop_last())
    } else {
        s
    }
}

/// `s` without white space at either end.
pub open spec fn trimmed(s: Seq<char>) -> Seq<char> {
    trim_end(trim_start(s))
}

/// The part of `text` between its leading and its trailing white space.
pub fn trim(text: &str) -> (result: String)
    ensures
        result@ == trimmed(text@),
{
    let chars = chars_of(text);
    let mut from: usize = 0;
    assert(chars@.subrange(0, chars@.len() as int) =~= chars@);
    while from < chars.len() && char_is_space(chars[from])
        invariant
            from <= chars@.len(),
            trim_start(chars@.subrange(from as int, chars@.len() as int)) == trim_start(chars@),
        decreases chars@.len() - from,
    {
        assert(chars@.subrange(from as int, chars@.len() as int).drop_first() =~= chars@.subrange(
            from + 1,
            chars@.len() as int,
        ));
        from = from + 1;
    }
    let mut to: usize = chars.len();
    let ghost middle = chars@.subrange(from as int, chars@.len() as int);
    assert(trim_start(chars@) == middle);
    while to > from && char_is_space(chars[to - 1])
        invariant
            from <= to <= chars@.len(),
            trim_end(chars@.subrange(from as int, to as int)) == trim_end(middle),
        decreases to,
    {
        assert(chars@.subrange(from as int, to as int).drop_last() =~= chars@.subrange(
            from as int,
            to - 1,
        ));
        to = to - 1;
    }
    text_of(&chars, from, to)
}

/// Whether a text consists of white space.
pub open spec fn is_blank(s: Seq<char>) -> bool {
    forall|i: int| 0 <= i < s.len() ==> is_space(#[trigger] s[i])
}

proof fn lemma_trim_start(s: Seq<char>) -> (before: Seq<char>)
    ensures
        s == before + trim_start(s),
        is_blank(before),
        trim_start(s).len() > 0 ==> !is_space(trim_start(s)[0]),
    decreases s.len(),
{
    if s.len() > 0 && is_space(s[0]) {
        let rest = lemma_trim_start(s.drop_first());
        let before = seq![s[0]] + rest;
        assert(s =~= seq![s[0]] + s.drop_first());
        assert(s =~= before + trim_start(s));
        assert forall|i: int| 0 <= i < before.len() implies is_space(#[trigger] before[i]) by {
            if i > 0 {
                assert(before[i] == rest[i - 1]);
            }
        }
        before
    } else {
        assert(s =~= Seq::<char>::empty() + s);
        Seq::empty()
    }
}

proof fn lemma_trim_end(s: Seq<char>) -> (after: Seq<char>)
    ensures
        s == trim_end(s) + after,
        is_blank(after),
        trim_end(s).len() > 0 ==> !is_space(trim_end(s).last()),
    decreases s.len(),
{
    if s.len() > 0 && is_space(s.last()) {
        let rest = lemma_trim_end(s.drop_last());
        let after = rest.push(s.last());
        assert(s =~= s.drop_last().push(s.last()));
        assert(s =~= trim_end(s) + after);
        assert forall|i: int| 0 <= i < after.len() implies is_space(#[trigger] after[i]) by {
            if i < rest.len() {
                assert(after[i] == rest[i]);
            }
        }
        after
    } else {
        assert(s =~= s + Seq::<char>::empty());
        Seq::empty()
    }
}

/// A text without white space at its ends is all that is left of it where white space was
/// put around it.
pub proof fn law_trimming_undoes_padding(before: Seq<char>, s: Seq<char>, after: Seq<char>)
    requires
        is_blank(before),
        is_blank(after),
        s.len() > 0 ==> !is_space(s[0]) && !is_space(s.last()),
    ensures
        trimmed(before + s + after) == s,
{
    let whole = before + s + after;
    let lead = lemma_trim_start(whole);
    let middle = trim_start(whole);
    let tail = lemma_trim_end(middle);
    let left = trim_end(middle);
    assert(whole == lead + left + tail);
    if s.len() == 0 {
        if left.len() > 0 {
            let at = lead.len() as int;
            assert(whole[at] == left[0]);
            assert(middle[0] == left[0]);
            if at < before.len() {
                assert(is_space(before[at]));
            } else {
                assert(is_space(after[at - before.len()]));
            }
        }
        assert(left =~= s);
    } else {
        let first = before.len() as int;
        let last = first + s.len() - 1;
        assert(whole[first] == s[0]);
        assert(whole[last] == s.last());
        if lead.len() > first {
            assert(is_space(lead[first]));
        }
        assert(middle.len() > 0);
        assert(left.len() > 0) by {
            if left.len() == 0 {
                assert(is_space(tail[0]));
                assert(middle[0] == tail[0]);
            }
        }
        if lead.len() < first {
            assert(whole[lead.len() as int] == before[lead.len() as int]);
            assert(middle[0] == whole[lead.len() as int]);
        }
        assert(lead.len() == first);
        let end = first + left.len() - 1;
        assert(whole[end] == left.last());
        if end > last {
            assert(is_space(after[end - last - 1]));
        }
        if end < last {
            let k = last - first - left.len();
            assert(whole[last] == tail[k]);
            assert(is_space(tail[k]));
        }
        assert(left =~= s) by {
            assert forall|i: int| 0 <= i < s.len() implies left[i] == s[i] by {
                assert(whole[first + i] == s[i]);
            }
        }
    }
}

/// Whether `needle` stands in `s` at position `at`.
pub open spec fn occurs_at(s: Seq<char>, needle: Seq<char>, at: int) -> bool {
    0 <= at && at + needle.len() <= s.len() && s.subrange(at, at + needle.len()) == needle
}

/// The first position, not before `from`, at which `needle` stands in `s`.
pub open spec fn find_from(s: Seq<char>, needle: Seq<char>, from: int) -> Option<int>
    decreases s.len() + 1 - from,
{
    if from < 0 || from + needle.len() > s.len() {
        None
    } else if occurs_at(s, needle, from) {
        Some(from)
    } else {
        find_from(s, needle, from + 1)
    }
}

/// The first position at which `needle` stands in `s`.
pub open spec fn find_text(s: Seq<char>, needle: Seq<char>) -> Option<int> {
    find_from(s, needle, 0)
}

/// `s` split around the first `needle`.
pub open spec fn split_once(s: Seq<char>, needle: Seq<char>) -> Option<(Seq<char>, Seq<char>)> {
    match find_text(s, needle) {
        Some(at) => Some(
            (s.subrange(0, at), s.subrange(at + needle.len() as int, s.len() as int)),
        ),
        None => None,
    }
}

/// Whether `needle` stands anywhere in `s`.
pub open spec fn contains_text(s: Seq<char>, needle: Seq<char>) -> bool {
    exists|at: int| #[trigger] occurs_at(s, needle, at)
}

/// `find_from` gives an occurrence, the first one, and none is missed.
pub proof fn lemma_find_from(s: Seq<char>, needle: Seq<char>, from: int)
    requires
        0 <= from,
    ensures
        match find_from(s, needle, from) {
            Some(at) => from <= at && occurs_at(s, needle, at) && forall|k: int|
                from <= k < at ==> !(#[trigger] occurs_at(s, needle, k)),
            None => forall|k: int| from <= k ==> !(#[trigger] occurs_at(s, needle, k)),
        },
    decreases s.len() + 1 - from,
{
    if from + needle.len() > s.len() {
    } else if occurs_at(s, needle, from) {
    } else {
        lemma_find_from(s, needle, from + 1);
    }
}

/// A needle is found exactly where it occurs.
pub proof fn lemma_contains_is_find(s: Seq<char>, needle: Seq<char>)
    ensures
        contains_text(s, needle) <==> find_text(s, needle) is Some,
{
    lemma_find_from(s, needle, 0);
    if contains_text(s, needle) {
        let at = choose|at: int| #[trigger] occurs_at(s, needle, at);
        assert(occurs_at(s, needle, at));
    }
}

/// The first position at which `needle` stands in `chars`.
pub fn find(chars: &Vec<char>, needle: &Vec<char>) -> (found: Option<usize>)
    ensures
        match found {
            Some(at) => find_text(chars@, needle@) == Some(at as int) && at + needle.len()
                <= chars.len(),
            None => find_text(chars@, needle@) is None,
        },
{
    if needle.len() > chars.len() {
        return None;
    }
    let last: usize = chars.len() - needle.len();
    let mut at: usize = 0;
    loop
        invariant
            last == chars@.len() - needle@.len(),
            at <= last,
            find_text(chars@, needle@) == find_from(chars@, needle@, at as int),
        decreases last - at,
    {
        if stands_at(chars, needle, at) {
            return Some(at);
        }
        if at == last {
            assert(find_from(chars@, needle@, at + 1) is None);
            return None;
        }
        at = at + 1;
    }
}

pub(crate) fn stands_at(chars: &Vec<char>, needle: &Vec<char>, at: usize) -> (yes: bool)
    requires
        at + needle@.len() <= chars@.len(),
    ensures
        yes == occurs_at(chars@, needle@, at as int),
{
    let mut k: usize = 0;
    while k < needle.len()
        invariant
            at + needle.len() <= chars.len(),
            k <= needle@.len(),
            forall|j: int| 0 <= j < k ==> chars@[at + j] == #[trigger] needle@[j],
        decreases needle@.len() - k,
    {
        if chars[at + k] != needle[k] {
            assert(chars@.subrange(at as int, at + needle@.len())[k as int] != needle@[k as int]);
            return false;
        }
        k = k + 1;
    }
    assert(chars@.subrange(at as int, at + needle@.len()) =~= needle@);
    true
}

/// Whether `needle` stands anywhere in `text`.
pub fn contains(text: &str, needle: &str) -> (yes: bool)
    ensures
        yes == contains_text(text@, needle@),
{
    let chars = chars_of(text);
    let wanted = chars_of(needle);
    proof {
        lemma_contains_is_find(text@, needle@);
    }
    find(&chars, &wanted).is_some()
}

/// Whether the two texts hold the same characters.
pub fn same_text(left: &str, right: &str) -> (same: bool)
    ensures
        same == (left@ == right@),
{
    let a = chars_of(left);
    let b = chars_of(right);
    if a.len() != b.len() {
        return false;
    }
    let mut i: usize = 0;
    while i < a.len()
        invariant
            a@ == left@,
            b@ == right@,
            a@.len() == b@.len(),
            i <= a@.len(),
            forall|j: int| 0 <= j < i ==> a@[j] == b@[j],
        decreases a@.len() - i,
    {
        if a[i] != b[i] {
            return false;
        }
        i = i + 1;
    }
    assert(a@ =~= b@);
    true
}


// ---------------------------------------------------------------------------
// Order
// ---------------------------------------------------------------------------

/// The outcome of comparing two values of a total order.
#[derive(Clone, Copy, Debug, PartialEq, Eq, Structural)]
pub enum Comparison {
    Less,
    Equal,
    Greater,
}

/// Lexicographic order by code point, which is also the order of the UTF-8 bytes.
pub open spec fn text_before(a: Seq<char>, b: Seq<char>) -> bool
    decreases a.len(),
{
    if b.len() == 0 {
        false
    } else if a.len() == 0 {
        true
    } else if a[0] != b[0] {
        (a[0] as int) < (b[0] as int)
    } else {
        text_before(a.drop_first(), b.drop_first())
    }
}

/// How `a` stands to `b` in the order of texts.
pub open spec fn text_order(a: Seq<char>, b: Seq<char>) -> Comparison {
    if text_before(a, b) {
        Comparison::Less
    } else if a == b {
        Comparison::Equal
    } else {
        Comparison::Greater
    }
}

/// No text comes before itself.
pub proof fn lemma_text_before_irreflexive(a: Seq<char>)
    ensures
        !text_before(a, a),
    decreases a.len(),
{
    if a.len() > 0 {
        lemma_text_before_irreflexive(a.drop_first());
    }
}

/// Of two different texts exactly one comes before the other.
pub proof fn lemma_text_before_total(a: Seq<char>, b: Seq<char>)
    ensures
        text_before(a, b) || a == b || text_before(b, a),
        !(text_before(a, b) && text_before(b, a)),
    decreases a.len(),
{
    if a.len() == 0 || b.len() == 0 {
        if a.len() == 0 && b.len() == 0 {
            assert(a =~= b);
        }
    } else if a[0] == b[0] {
        lemma_text_before_total(a.drop_first(), b.drop_first());
        if a.drop_first() == b.drop_first() {
            assert(a =~= seq![a[0]] + a.drop_first());
            assert(b =~= seq![b[0]] + b.drop_first());
            assert(a =~= b);
        }
    }
}

/// The order of texts is transitive.
pub proof fn lemma_text_before_transitive(a: Seq<char>, b: Seq<char>, c: Seq<char>)
    requires
        text_before(a, b),
        text_before(b, c),
    ensures
        text_before(a, c),
    decreases a.len(),
{
    if a.len() > 0 && b.len() > 0 && c.len() > 0 && a[0] == b[0] && b[0] == c[0] {
        lemma_text_before_transitive(a.drop_first(), b.drop_first(), c.drop_first());
    }
}

/// Where two texts agree up to some place, what stands there decides their order: the
/// lesser character, or the end of a text, comes first.
pub proof fn law_first_difference_orders_texts(a: Seq<char>, b: Seq<char>, at: int)
    requires
        0 <= at <= a.len(),
        at <= b.len(),
        a.take(at) == b.take(at),
        at < a.len() && at < b.len() ==> a[at] != b[at],
    ensures
        text_order(a, b) is Less <==> at < b.len() && (at == a.len() || (a[at] as int) < (
        b[at] as int)),
        text_order(a, b) is Greater <==> at < a.len() && (at == b.len() || (a[at] as int) > (
        b[at] as int)),
        text_order(a, b) is Equal <==> a == b,
        text_before(a, b) <==> text_order(a, b) is Less,
    decreases at,
{
    lemma_text_before_irreflexive(a);
    lemma_text_before_total(a, b);
    if at > 0 {
        let (x, y) = (a.drop_first(), b.drop_first());
        assert(a.take(at)[0] == b.take(at)[0]);
        assert(x.take(at - 1) =~= a.take(at).drop_first());
        assert(y.take(at - 1) =~= b.take(at).drop_first());
        assert(a[0] == a.take(at)[0] && b[0] == b.take(at)[0]);
        if at < a.len() {
            assert(x[at - 1] == a[at]);
        }
        if at < b.len() {
            assert(y[at - 1] == b[at]);
        }
        law_first_difference_orders_texts(x, y, at - 1);
        assert(text_before(a, b) == text_before(x, y));
        if x == y {
            assert(a =~= seq![a[0]] + x);
            assert(b =~= seq![b[0]] + y);
        }
    }
    if at == a.len() && at == b.len() {
        assert(a =~= a.take(at));
        assert(b =~= b.take(at));
    } else if at == a.len() || at == b.len() {
        assert(a.len() != b.len());
    }
}

/// Compares two texts in their order.
pub fn compare_text(left: &str, right: &str) -> (order: Comparison)
    ensures
        order == text_order(left@, right@),
{
    let a = chars_of(left);
    let b = chars_of(right);
    let mut i: usize = 0;
    assert(a@.skip(0) =~= a@);
    assert(b@.skip(0) =~= b@);
    while i < a.len() && i < b.len()
        invariant
            i <= a@.len(),
            i <= b@.len(),
            a@ == left@,
            b@ == right@,
            text_before(left@, right@) == text_before(a@.skip(i as int), b@.skip(i as int)),
            forall|j: int| 0 <= j < i ==> a@[j] == b@[j],
        decreases a@.len() - i,
    {
        if a[i] != b[i] {
            assert(a@.skip(i as int)[0] == a@[i as int]);
            assert(b@.skip(i as int)[0] == b@[i as int]);
            return if code_of(a[i]) < code_of(b[i]) {
                Comparison::Less
            } else {
                Comparison::Greater
            };
        }
        assert(a@.skip(i as int).drop_first() =~= a@.skip(i + 1));
        assert(b@.skip(i as int).drop_first() =~= b@.skip(i + 1));
        i = i + 1;
    }
    if i < b.len() {
        Comparison::Less
    } else if i < a.len() {
        Comparison::Greater
    } else {
        assert(a@ =~= b@);
        Comparison::Equal
    }
}

// ---------------------------------------------------------------------------
// ASCII case
// ---------------------------------------------------------------------------

/// `c` with an ASCII capital replaced by its small letter.
pub open spec fn ascii_lower(c: char) -> char {
    if 'A' as int <= c as int <= 'Z' as int {
        (c as int + 32) as char
    } else {
        c
    }
}

/// Whether the two texts are equal up to the case of ASCII letters.
pub open spec fn same_ignoring_case(a: Seq<char>, b: Seq<char>) -> bool {
    a.len() == b.len() && forall|i: int|
        0 <= i < a.len() ==> #[trigger] ascii_lower(a[i]) == ascii_lower(b[i])
}

/// The case of a letter does not matter, and everything else does: characters count as the
/// same where they are equal or lie one alphabet apart, one of them a capital.
pub proof fn law_case_is_all_that_is_ignored(c: char, d: char)
    ensures
        ascii_lower(c) == ascii_lower(d) <==> c == d || ('A' as int <= c as int <= 'Z' as int
            && d as int == c as int + ('a' as int - 'A' as int)) || ('A' as int <= d as int
            <= 'Z' as int && c as int == d as int + ('a' as int - 'A' as int)),
{
}

fn folded(c: char) -> (n: u32)
    ensures
        n == ascii_lower(c) as int,
{
    let n: u32 = code_of(c);
    if 65 <= n && n <= 90 {
        n + 32
    } else {
        n
    }
}

/// Whether the two texts are equal up to the case of ASCII letters.
pub fn eq_ignore_ascii_case(left: &str, right: &str) -> (same: bool)
    ensures
        same == same_ignoring_case(left@, right@),
{
    let a = chars_of(left);
    let b = chars_of(right);
    if a.len() != b.len() {
        return false;
    }
    let mut i: usize = 0;
    while i < a.len()
        invariant
            a@ == left@,
            b@ == right@,
            a@.len() == b@.len(),
            i <= a@.len(),
            forall|j: int| 0 <= j < i ==> #[trigger] ascii_lower(a@[j]) == ascii_lower(b@[j]),
        decreases a@.len() - i,
    {
        if folded(a[i]) != folded(b[i]) {
            assert(ascii_lower(a@[i as int]) != ascii_lower(b@[i as int]));
            return false;
        }
        i = i + 1;
    }
    true
}


// ---------------------------------------------------------------------------
// Numbers
// ---------------------------------------------------------------------------

/// The character of the decimal digit `d`.
pub open spec fn digit_char(d: int) -> char {
    if d <= 0 {
        '0'
    } else if d == 1 {
        '1'
    } else if d == 2 {
        '2'
    } else if d == 3 {
        '3'
    } else if d == 4 {
        '4'
    } else if d == 5 {
        '5'
    } else if d == 6 {
        '6'
    } else if d == 7 {
        '7'
    } else if d == 8 {
        '8'
    } else {
        '9'
    }
}

/// The decimal digits of `n`, without leading zeros.
pub open spec fn decimal(n: nat) -> Seq<char>
    decreases n,
{
    if n < 10 {
        seq![digit_char(n as int)]
    } else {
        decimal(n / 10).push(digit_char((n % 10) as int))
    }
}

/// The decimal digits of `n`, after a minus sign where `n` is negative.
pub open spec fn signed_decimal(n: int) -> Seq<char> {
    if n < 0 {
        seq!['-'] + decimal((-n) as nat)
    } else {
        decimal(n as nat)
    }
}

fn digit(d: u64) -> (c: char)
    requires
        d < 10,
    ensures
        c == digit_char(d as int),
{
    if d == 0 {
        '0'
    } else if d == 1 {
        '1'
    } else if d == 2 {
        '2'
    } else if d == 3 {
        '3'
    } else if d == 4 {
        '4'
    } else if d == 5 {
        '5'
    } else if d == 6 {
        '6'
    } else if d == 7 {
        '7'
    } else if d == 8 {
        '8'
    } else {
        '9'
    }
}

/// Appends the decimal digits of `n`.
pub fn push_decimal(out: &mut String, n: u64)
    ensures
        final(out)@ == old(out)@ + decimal(n as nat),
    decreases n,
{
    if n >= 10 {
        push_decimal(out, n / 10);
    }
    out.push(digit(n % 10));
    assert(out@ =~= old(out)@ + decimal(n as nat));
}

/// The decimal digits of `n`.
pub fn decimal_text(n: u64) -> (text: String)
    ensures
        text@ == decimal(n as nat),
{
    let mut text = String::new();
    push_decimal(&mut text, n);
    assert(text@ =~= decimal(n as nat));
    text
}

/// The decimal digits of `n`, with its sign where it is negative.
pub fn signed_decimal_text(n: i64) -> (text: String)
    ensures
        text@ == signed_decimal(n as int),
{
    let mut text = String::new();
    if n < 0 {
        text.push('-');
        let magnitude: u64 = if n == i64::MIN {
            9223372036854775808u64
        } else {
            (-n) as u64
        };
        push_decimal(&mut text, magnitude);
        assert(text@ =~= signed_decimal(n as int));
    } else {
        push_decimal(&mut text, n as u64);
        assert(text@ =~= signed_decimal(n as int));
    }
    text
}

/// Whether `c` is a decimal digit.
pub open spec fn is_digit(c: char) -> bool {
    '0' as int <= c as int <= '9' as int
}

/// The value of the decimal digit `c`.
pub open spec fn digit_value(c: char) -> nat {
    if is_digit(c) {
        (c as int - '0' as int) as nat
    } else {
        0
    }
}

/// The value of the decimal digits `s`.
pub open spec fn digits_value(s: Seq<char>) -> nat
    decreases s.len(),
{
    if s.len() == 0 {
        0
    } else {
        digits_value(s.drop_last()) * 10 + digit_value(s.last())
    }
}

/// What stands behind an optional plus sign.
pub open spec fn without_plus(s: Seq<char>) -> Seq<char> {
    if s.len() > 0 && s[0] == '+' {
        s.drop_first()
    } else {
        s
    }
}

/// The number that `s` writes in decimal, with an optional plus sign, where it
/// is at most `max`.
pub open spec fn parsed_unsigned(s: Seq<char>, max: nat) -> Option<nat> {
    let body = without_plus(s);
    if body.len() > 0 && (forall|i: int| 0 <= i < body.len() ==> is_digit(#[trigger] body[i]))
        && digits_value(body) <= max {
        Some(digits_value(body))
    } else {
        None
    }
}

proof fn lemma_digits_prefix(s: Seq<char>, k: int)
    requires
        0 <= k <= s.len(),
    ensures
        digits_value(s.take(k)) <= digits_value(s),
    decreases s.len(),
{
    if k == s.len() {
        assert(s.take(k) =~= s);
    } else {
        lemma_digits_prefix(s.drop_last(), k);
        assert(s.drop_last().take(k) =~= s.take(k));
        assert(digits_value(s) >= digits_value(s.drop_last())) by (nonlinear_arith)
            requires
                s.len() > 0,
                digits_value(s) == digits_value(s.drop_last()) * 10 + digit_value(s.last()),
        ;
    }
}

/// The number that `text` writes in decimal, where it is at most `max`.
pub fn parse_unsigned(text: &str, max: u64) -> (parsed: Option<u64>)
    ensures
        match parsed {
            Some(n) => parsed_unsigned(text@, max as nat) == Some(n as nat),
            None => parsed_unsigned(text@, max as nat) is None,
        },
{
    let chars = chars_of(text);
    let start: usize = if chars.len() > 0 && chars[0] == '+' {
        1
    } else {
        0
    };
    let ghost body = without_plus(text@);
    assert(body =~= chars@.skip(start as int));
    if start == chars.len() {
        return None;
    }
    let mut value: u64 = 0;
    let mut i: usize = start;
    assert(body.take(0) =~= Seq::<char>::empty());
    while i < chars.len()
        invariant
            start <= i <= chars@.len(),
            body == without_plus(text@),
            body == chars@.skip(start as int),
            body.len() > 0,
            value <= max,
            value == digits_value(body.take(i - start)),
            forall|j: int| 0 <= j < i - start ==> is_digit(#[trigger] body[j]),
        decreases chars@.len() - i,
    {
        let c: char = chars[i];
        let n: u32 = code_of(c);
        assert(body[i - start] == c);
        if n < 48 || n > 57 {
            assert(!is_digit(body[i - start]));
            return None;
        }
        let next: u128 = value as u128 * 10 + (n - 48) as u128;
        proof {
            assert(body.take(i - start + 1).drop_last() =~= body.take(i - start));
            lemma_digits_prefix(body, i - start + 1);
        }
        if next > max as u128 {
            return None;
        }
        value = next as u64;
        i = i + 1;
    }
    assert(body.take(i - start) =~= body);
    Some(value)
}

/// The index that `text` writes in decimal.
pub fn parse_usize(text: &str) -> (parsed: Option<usize>)
    ensures
        match parsed {
            Some(n) => parsed_unsigned(text@, usize::MAX as nat) == Some(n as nat),
            None => parsed_unsigned(text@, usize::MAX as nat) is None,
        },
{
    match parse_unsigned(text, usize::MAX as u64) {
        Some(n) => Some(n as usize),
        None => None,
    }
}

proof fn lemma_digit_value(d: int)
    requires
        0 <= d < 10,
    ensures
        is_digit(digit_char(d)),
        digit_value(digit_char(d)) == d,
{
}

/// The digits of a number write that number.
pub proof fn lemma_decimal_digits(n: nat)
    ensures
        decimal(n).len() > 0,
        digits_value(decimal(n)) == n,
        forall|i: int| 0 <= i < decimal(n).len() ==> is_digit(#[trigger] decimal(n)[i]),
    decreases n,
{
    lemma_digit_value((n % 10) as int);
    if n < 10 {
        assert(decimal(n).drop_last() =~= Seq::<char>::empty());
        assert(digits_value(Seq::<char>::empty()) == 0);
        assert(decimal(n).last() == digit_char((n % 10) as int));
    } else {
        lemma_decimal_digits(n / 10);
        assert(decimal(n).drop_last() =~= decimal(n / 10));
        assert(decimal(n).last() == digit_char((n % 10) as int));
    }
}

/// Parsing the decimal digits of a number within bounds gives that number back.
pub proof fn law_parse_inverts_decimal(n: nat, max: nat)
    requires
        n <= max,
    ensures
        parsed_unsigned(decimal(n), max) == Some(n),
{
    lemma_decimal_digits(n);
    assert(is_digit(decimal(n)[0]));
}


// ---------------------------------------------------------------------------
// UTF-8 lengths
// ---------------------------------------------------------------------------

/// How many bytes the UTF-8 encoding of `c` has.
pub open spec fn char_width(c: char) -> nat {
    if (c as int) < 0x80 {
        1
    } else if (c as int) < 0x800 {
        2
    } else if (c as int) < 0x10000 {
        3
    } else {
        4
    }
}

/// How many bytes the UTF-8 encoding of `s` has.
pub open spec fn byte_len(s: Seq<char>) -> nat
    decreases s.len(),
{
    if s.len() == 0 {
        0
    } else {
        byte_len(s.drop_last()) + char_width(s.last())
    }
}

/// The number of leading characters of `s` that fit in `limit` bytes.
pub open spec fn chars_within(s: Seq<char>, limit: nat) -> nat
    decreases s.len(),
{
    if s.len() == 0 || byte_len(s) <= limit {
        s.len()
    } else {
        chars_within(s.drop_last(), limit)
    }
}

/// The byte lengths of two texts add up.
pub proof fn lemma_byte_len_concat(a: Seq<char>, b: Seq<char>)
    ensures
        byte_len(a + b) == byte_len(a) + byte_len(b),
    decreases b.len(),
{
    if b.len() == 0 {
        assert(a + b =~= a);
    } else {
        lemma_byte_len_concat(a, b.drop_last());
        assert((a + b).drop_last() =~= a + b.drop_last());
    }
}

/// A prefix has no more bytes than the whole.
pub proof fn lemma_byte_len_prefix(s: Seq<char>, k: int)
    requires
        0 <= k <= s.len(),
    ensures
        byte_len(s.take(k)) <= byte_len(s),
        k < s.len() ==> byte_len(s.take(k)) < byte_len(s),
{
    lemma_byte_len_concat(s.take(k), s.skip(k));
    assert(s.take(k) + s.skip(k) =~= s);
    if k < s.len() {
        assert(s.skip(k).len() > 0);
    }
}

/// `chars_within` is the longest prefix that fits.
pub proof fn lemma_chars_within(s: Seq<char>, limit: nat)
    ensures
        chars_within(s, limit) <= s.len(),
        byte_len(s.take(chars_within(s, limit) as int)) <= limit,
        chars_within(s, limit) < s.len() ==> byte_len(
            s.take(chars_within(s, limit) as int + 1),
        ) > limit,
    decreases s.len(),
{
    let k = chars_within(s, limit) as int;
    if s.len() == 0 || byte_len(s) <= limit {
        assert(s.take(s.len() as int) =~= s);
    } else {
        lemma_chars_within(s.drop_last(), limit);
        assert(s.drop_last().take(k) =~= s.take(k));
        if k + 1 < s.len() {
            assert(s.drop_last().take(k + 1) =~= s.take(k + 1));
        } else {
            assert(s.take(k + 1) =~= s);
        }
    }
}

proof fn lemma_chars_within_is(s: Seq<char>, limit: nat, k: int)
    requires
        0 <= k <= s.len(),
        byte_len(s.take(k)) <= limit,
        k < s.len() ==> byte_len(s.take(k + 1)) > limit,
    ensures
        chars_within(s, limit) == k,
{
    lemma_chars_within(s, limit);
    let m = chars_within(s, limit) as int;
    if m < k {
        lemma_byte_len_prefix(s.take(k), m + 1);
        assert(s.take(k).take(m + 1) =~= s.take(m + 1));
    } else if m > k {
        lemma_byte_len_prefix(s.take(m), k + 1);
        assert(s.take(m).take(k + 1) =~= s.take(k + 1));
    }
}

proof fn lemma_encoded_len(s: Seq<char>)
    ensures
        encode_utf8(s).len() == byte_len(s),
    decreases s.len(),
{
    if s.len() > 0 {
        lemma_encoded_len(s.drop_first());
        lemma_byte_len_concat(seq![s[0]], s.drop_first());
        assert(seq![s[0]] + s.drop_first() =~= s);
        assert(seq![s[0]].drop_last() =~= Seq::<char>::empty());
        assert(byte_len(Seq::<char>::empty()) == 0);
        assert(byte_len(seq![s[0]]) == char_width(s[0]));
        lemma_encoded_char(s[0]);
    }
}

proof fn lemma_encoded_char(c: char)
    ensures
        encode_scalar(c as u32).len() == char_width(c),
{
}

fn width_of(c: char) -> (width: usize)
    ensures
        width == char_width(c),
        1 <= width <= 4,
{
    let n: u32 = code_of(c);
    if n < 0x80 {
        1
    } else if n < 0x800 {
        2
    } else if n < 0x10000 {
        3
    } else {
        4
    }
}

/// How many bytes the UTF-8 encoding of `text` has.
pub fn utf8_len(text: &str) -> (len: usize)
    ensures
        len == byte_len(text@),
{
    proof {
        lemma_encoded_len(text@);
    }
    text.as_bytes().len()
}

/// The number of leading characters that fit in `limit` bytes.
pub fn prefix_within(chars: &Vec<char>, limit: usize) -> (count: usize)
    ensures
        count == chars_within(chars@, limit as nat),
        count <= chars@.len(),
{
    let mut total: usize = 0;
    let mut i: usize = 0;
    assert(chars@.take(0) =~= Seq::<char>::empty());
    while i < chars.len()
        invariant
            i <= chars@.len(),
            total <= limit,
            total == byte_len(chars@.take(i as int)),
        decreases chars@.len() - i,
    {
        let width = width_of(chars[i]);
        assert(chars@.take(i + 1).drop_last() =~= chars@.take(i as int));
        assert(chars@.take(i + 1).last() == chars@[i as int]);
        if width > limit - total {
            proof {
                lemma_chars_within_is(chars@, limit as nat, i as int);
            }
            return i;
        }
        total = total + width;
        i = i + 1;
    }
    proof {
        lemma_chars_within_is(chars@, limit as nat, i as int);
    }
    i
}


// ---------------------------------------------------------------------------
// Joining
// ---------------------------------------------------------------------------

/// `a` followed by `b`.
pub fn cat(a: &str, b: &str) -> (text: String)
    ensures
        text@ == a@ + b@,
{
    let mut text = a.to_owned();
    text.append(b);
    text
}

/// `a` followed by `b` and `c`.
pub fn cat3(a: &str, b: &str, c: &str) -> (text: String)
    ensures
        text@ == a@ + b@ + c@,
{
    let mut text = cat(a, b);
    text.append(c);
    text
}

/// `a` followed by `b`, `c`, `d` and `e`.
pub fn cat5(a: &str, b: &str, c: &str, d: &str, e: &str) -> (text: String)
    ensures
        text@ == a@ + b@ + c@ + d@ + e@,
{
    let mut text = cat3(a, b, c);
    text.append(d);
    text.append(e);
    text
}

/// Whether `s` begins with `c` and ends with another `c`.
pub open spec fn enclosed_by(s: Seq<char>, c: char) -> bool {
    s.len() >= 2 && s[0] == c && s.last() == c
}

// ---------------------------------------------------------------------------
// The grammar of floating-point literals
// ---------------------------------------------------------------------------

/// The position behind the digits that stand in `s` from `at` on.
pub open spec fn digits_end(s: Seq<char>, at: int) -> int
    decreases s.len() - at,
{
    if 0 <= at < s.len() && is_digit(s[at]) {
        digits_end(s, at + 1)
    } else {
        at
    }
}

/// Whether an exponent stands in `s` from `at` to the end.
pub open spec fn is_exponent(s: Seq<char>, at: int) -> bool {
    let digits = if at + 1 < s.len() && (s[at + 1] == '+' || s[at + 1] == '-') {
        at + 2
    } else {
        at + 1
    };
    0 <= at < s.len() && (s[at] == 'e' || s[at] == 'E') && digits < s.len() && digits_end(s, digits)
        == s.len()
}

/// Whether digits, with an optional point among them and an optional exponent
/// behind them, stand in `s` from `at` to the end.
pub open spec fn is_decimal_literal(s: Seq<char>, at: int) -> bool {
    let whole = digits_end(s, at);
    let pointed = 0 <= whole < s.len() && s[whole] == '.';
    let end = if pointed {
        digits_end(s, whole + 1)
    } else {
        whole
    };
    let digits = if pointed {
        end - at - 1
    } else {
        end - at
    };
    digits > 0 && (end == s.len() || is_exponent(s, end))
}

/// Whether `s` is a floating-point literal: an optional sign, then a decimal
/// literal, an infinity or a not-a-number, these two in any case.
pub open spec fn is_number(s: Seq<char>) -> bool {
    let at = if s.len() > 0 && (s[0] == '+' || s[0] == '-') {
        1int
    } else {
        0int
    };
    is_decimal_literal(s, at) || same_ignoring_case(s.skip(at), "inf"@) || same_ignoring_case(
        s.skip(at),
        "infinity"@,
    ) || same_ignoring_case(s.skip(at), "nan"@)
}

fn skip_digits(chars: &Vec<char>, from: usize) -> (end: usize)
    requires
        from <= chars@.len(),
    ensures
        end == digits_end(chars@, from as int),
        from <= end <= chars@.len(),
{
    let mut at: usize = from;
    while at < chars.len() && 48 <= code_of(chars[at]) && code_of(chars[at]) <= 57
        invariant
            from <= at <= chars@.len(),
            digits_end(chars@, from as int) == digits_end(chars@, at as int),
        decreases chars@.len() - at,
    {
        at = at + 1;
    }
    at
}

fn exponent_at(chars: &Vec<char>, at: usize) -> (yes: bool)
    requires
        at <= chars@.len(),
    ensures
        yes == is_exponent(chars@, at as int),
{
    if at >= chars.len() || (chars[at] != 'e' && chars[at] != 'E') {
        return false;
    }
    let next: usize = at + 1;
    let digits: usize = if next < chars.len() && (chars[next] == '+' || chars[next] == '-') {
        next + 1
    } else {
        next
    };
    digits < chars.len() && skip_digits(chars, digits) == chars.len()
}

fn decimal_literal_at(chars: &Vec<char>, at: usize) -> (yes: bool)
    requires
        at <= chars@.len(),
    ensures
        yes == is_decimal_literal(chars@, at as int),
{
    let whole = skip_digits(chars, at);
    if whole < chars.len() && chars[whole] == '.' {
        let end = skip_digits(chars, whole + 1);
        end - at - 1 > 0 && (end == chars.len() || exponent_at(chars, end))
    } else {
        whole > at && (whole == chars.len() || exponent_at(chars, whole))
    }
}

/// Whether `text` is a floating-point literal.
pub fn writes_number(text: &str) -> (yes: bool)
    ensures
        yes == is_number(text@),
{
    let chars = chars_of(text);
    let at: usize = if chars.len() > 0 && (chars[0] == '+' || chars[0] == '-') {
        1
    } else {
        0
    };
    if decimal_literal_at(&chars, at) {
        return true;
    }
    let rest = text_of(&chars, at, chars.len());
    assert(rest@ =~= text@.skip(at as int));
    eq_ignore_ascii_case(rest.as_str(), "inf") || eq_ignore_ascii_case(rest.as_str(), "infinity")
        || eq_ignore_ascii_case(rest.as_str(), "nan")
}


/// `std::str::from_utf8`: the text that the bytes encode, where they are UTF-8.
#[verifier::external_body]
pub(crate) fn utf8_text(bytes: &Vec<u8>) -> (text: Option<String>)
    ensures
        match text {
            Some(decoded) => valid_utf8(bytes@) && decoded@ == decode_utf8(bytes@),
            None => !valid_utf8(bytes@),
        },
{
    std::str::from_utf8(bytes).ok().map(|text| text.to_owned())
}

/// The number that a signed decimal writes is read back: the digits of its magnitude, with a
/// minus sign before them exactly where it is negative.
pub proof fn law_signed_decimal_reads_back(n: int, max: nat)
    requires
        -(max as int) <= n <= max,
    ensures
        n >= 0 ==> parsed_unsigned(signed_decimal(n), max) == Some(n as nat),
        n < 0 ==> signed_decimal(n).len() > 1 && signed_decimal(n)[0] == '-' && parsed_unsigned(
            signed_decimal(n).drop_first(),
            max,
        ) == Some((-n) as nat),
{
    if n >= 0 {
        law_parse_inverts_decimal(n as nat, max);
    } else {
        law_parse_inverts_decimal((-n) as nat, max);
        lemma_decimal_digits((-n) as nat);
        assert(signed_decimal(n).drop_first() =~= decimal((-n) as nat));
    }
}

/// What is read as a number are decimal digits, and each counts ten times what the one
/// behind it does.
pub proof fn law_digits_count_tenfold(s: Seq<char>, digit: nat, max: nat)
    requires
        digit < 10,
        s.len() > 0,
        parsed_unsigned(s, max) is Some,
    ensures
        parsed_unsigned(s.push(('0' as int + digit) as char), max) == if parsed_unsigned(s, max)->0
            * 10 + digit <= max {
            Some((parsed_unsigned(s, max)->0 * 10 + digit) as nat)
        } else {
            None
        },
{
    let c = ('0' as int + digit) as char;
    let body = without_plus(s);
    let more = s.push(c);
    assert(without_plus(more) =~= body.push(c));
    assert(body.push(c).drop_last() =~= body);
    assert(is_digit(c));
    assert forall|i: int| 0 <= i < body.push(c).len() implies is_digit(#[trigger] body.push(c)[i]) by {
        if i < body.len() {
            assert(body.push(c)[i] == body[i]);
        }
    }
}

/// Trimming leaves nothing exactly where there is nothing but white space.
pub proof fn law_blank_text_is_trimmed_away(s: Seq<char>)
    ensures
        trimmed(s).len() == 0 <==> is_blank(s),
{
    let lead = lemma_trim_start(s);
    let middle = trim_start(s);
    let tail = lemma_trim_end(middle);
    let left = trim_end(middle);
    assert(s == lead + left + tail);
    if left.len() == 0 {
        assert forall|i: int| 0 <= i < s.len() implies is_space(#[trigger] s[i]) by {
            if i < lead.len() {
                assert(s[i] == lead[i]);
            } else {
                assert(s[i] == tail[i - lead.len()]);
            }
        }
    } else {
        assert(s[lead.len() as int] == left[0]);
        assert(middle[0] == left[0]);
    }
}

/// Whether a text consists of digits.
pub open spec fn is_digits(s: Seq<char>) -> bool {
    forall|i: int| 0 <= i < s.len() ==> is_digit(#[trigger] s[i])
}

/// Whether a text is a sign, or nothing.
pub open spec fn is_sign(s: Seq<char>) -> bool {
    s.len() == 0 || (s.len() == 1 && (s[0] == '+' || s[0] == '-'))
}

proof fn lemma_digits_end_at(s: Seq<char>, from: int, to: int)
    requires
        0 <= from <= to <= s.len(),
        forall|i: int| from <= i < to ==> is_digit(#[trigger] s[i]),
        to == s.len() || !is_digit(s[to]),
    ensures
        digits_end(s, from) == to,
    decreases to - from,
{
    if from < to {
        assert(is_digit(s[from]));
        lemma_digits_end_at(s, from + 1, to);
    }
}

proof fn lemma_digits_before_end(s: Seq<char>, from: int)
    requires
        0 <= from <= s.len(),
    ensures
        from <= digits_end(s, from) <= s.len(),
        forall|i: int| from <= i < digits_end(s, from) ==> is_digit(#[trigger] s[i]),
    decreases s.len() - from,
{
    if from < s.len() && is_digit(s[from]) {
        lemma_digits_before_end(s, from + 1);
    }
}

/// Digits are a number, with a sign before them or not, with a point before, among or behind
/// them or not, and with an exponent or not.
pub proof fn law_decimal_literals_are_numbers(
    sign: Seq<char>,
    whole: Seq<char>,
    fraction: Seq<char>,
    mark: char,
    exponent_sign: Seq<char>,
    exponent: Seq<char>,
)
    requires
        is_sign(sign),
        is_sign(exponent_sign),
        is_digits(whole),
        is_digits(fraction),
        is_digits(exponent),
        exponent.len() > 0,
        mark == 'e' || mark == 'E',
    ensures
        whole.len() > 0 ==> is_number(sign + whole),
        whole.len() > 0 ==> is_number(sign + whole + seq![mark] + exponent_sign + exponent),
        whole.len() + fraction.len() > 0 ==> is_number(sign + whole + seq!['.'] + fraction),
        whole.len() + fraction.len() > 0 ==> is_number(
            sign + whole + seq!['.'] + fraction + seq![mark] + exponent_sign + exponent,
        ),
{
    let a = sign.len() as int;
    let b = a + whole.len();
    let c = b + 1 + fraction.len();
    if whole.len() > 0 {
        let plain = sign + whole;
        assert forall|i: int| a <= i < b implies is_digit(#[trigger] plain[i]) by {
            assert(plain[i] == whole[i - a]);
        }
        assert(plain[a] == whole[0]);
        lemma_digits_end_at(plain, a, b);
        let raised = sign + whole + seq![mark] + exponent_sign + exponent;
        assert forall|i: int| a <= i < b implies is_digit(#[trigger] raised[i]) by {
            assert(raised[i] == whole[i - a]);
        }
        assert(raised[a] == whole[0]);
        assert(raised[b] == mark);
        lemma_digits_end_at(raised, a, b);
        lemma_is_exponent(sign + whole, mark, exponent_sign, exponent);
    }
    if whole.len() + fraction.len() > 0 {
        let pointed = sign + whole + seq!['.'] + fraction;
        assert forall|i: int| a <= i < b implies is_digit(#[trigger] pointed[i]) by {
            assert(pointed[i] == whole[i - a]);
        }
        assert forall|i: int| b + 1 <= i < c implies is_digit(#[trigger] pointed[i]) by {
            assert(pointed[i] == fraction[i - b - 1]);
        }
        assert(pointed[b] == '.');
        assert(pointed[a] == if whole.len() > 0 {
            whole[0]
        } else {
            '.'
        });
        lemma_digits_end_at(pointed, a, b);
        lemma_digits_end_at(pointed, b + 1, c);
        let raised = pointed + seq![mark] + exponent_sign + exponent;
        assert forall|i: int| a <= i < b implies is_digit(#[trigger] raised[i]) by {
            assert(raised[i] == whole[i - a]);
        }
        assert forall|i: int| b + 1 <= i < c implies is_digit(#[trigger] raised[i]) by {
            assert(raised[i] == fraction[i - b - 1]);
        }
        assert(raised[b] == '.');
        assert(raised[a] == pointed[a]);
        assert(raised[c] == mark);
        lemma_digits_end_at(raised, a, b);
        lemma_digits_end_at(raised, b + 1, c);
        lemma_is_exponent(pointed, mark, exponent_sign, exponent);
    }
}

proof fn lemma_is_exponent(
    before: Seq<char>,
    mark: char,
    exponent_sign: Seq<char>,
    exponent: Seq<char>,
)
    requires
        is_sign(exponent_sign),
        is_digits(exponent),
        exponent.len() > 0,
        mark == 'e' || mark == 'E',
    ensures
        is_exponent(before + seq![mark] + exponent_sign + exponent, before.len() as int),
{
    let s = before + seq![mark] + exponent_sign + exponent;
    let at = before.len() as int;
    let digits = at + 1 + exponent_sign.len();
    assert(s[at] == mark);
    assert forall|i: int| digits <= i < s.len() implies is_digit(#[trigger] s[i]) by {
        assert(s[i] == exponent[i - digits]);
    }
    assert(is_digit(s[digits]));
    if exponent_sign.len() == 1 {
        assert(s[at + 1] == exponent_sign[0]);
    }
    lemma_digits_end_at(s, digits, s.len() as int);
}

/// A number is written with digits, signs, a point and the mark of an exponent only, or is
/// one of the words for infinity and for what is no number.
pub proof fn law_other_texts_are_no_numbers(s: Seq<char>, i: int)
    requires
        is_number(s),
        0 <= i < s.len(),
    ensures
        ({
            let at = if s[0] == '+' || s[0] == '-' {
                1int
            } else {
                0int
            };
            ||| is_digit(s[i]) || s[i] == '.' || s[i] == 'e' || s[i] == 'E' || s[i] == '+' || s[i]
                == '-'
            ||| same_ignoring_case(s.skip(at), seq!['i', 'n', 'f'])
            ||| same_ignoring_case(s.skip(at), seq!['i', 'n', 'f', 'i', 'n', 'i', 't', 'y'])
            ||| same_ignoring_case(s.skip(at), seq!['n', 'a', 'n'])
        }),
{
    reveal_strlit("inf");
    reveal_strlit("infinity");
    reveal_strlit("nan");
    assert("inf"@ =~= seq!['i', 'n', 'f']);
    assert("infinity"@ =~= seq!['i', 'n', 'f', 'i', 'n', 'i', 't', 'y']);
    assert("nan"@ =~= seq!['n', 'a', 'n']);
    let at = if s[0] == '+' || s[0] == '-' {
        1int
    } else {
        0int
    };
    if is_decimal_literal(s, at) {
        lemma_digits_before_end(s, at);
        let whole = digits_end(s, at);
        let pointed = whole < s.len() && s[whole] == '.';
        if pointed {
            lemma_digits_before_end(s, whole + 1);
        }
        let end = if pointed {
            digits_end(s, whole + 1)
        } else {
            whole
        };
        if end < s.len() {
            let digits = if end + 1 < s.len() && (s[end + 1] == '+' || s[end + 1] == '-') {
                end + 2
            } else {
                end + 1
            };
            lemma_digits_before_end(s, digits);
        }
    }
}

} // verus!
