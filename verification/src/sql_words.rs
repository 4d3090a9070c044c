//! Words in SQL text: statements on which the parser does not come back with an
//! answer are known by the words that they are made of.

use crate::text::{ascii_lower, chars_of, code_of};
use vstd::prelude::*;

verus! {

/// Whether `c` is an ASCII letter or digit, or one of the signs of an identifier.
pub open spec fn is_word_char(c: char) -> bool {
    let n = c as int;
    48 <= n <= 57 || 65 <= n <= 90 || 97 <= n <= 122 || n == 95 || n == 36 || n == 64 || n == 35
}

/// Whether `c` is an ASCII digit.
pub open spec fn is_digit_char(c: char) -> bool {
    48 <= c as int <= 57
}

/// Where the run of word characters begins that reaches up to `at`.
pub open spec fn run_start(text: Seq<char>, at: int) -> int
    decreases at,
{
    if at <= 0 || !is_word_char(text[at - 1]) {
        at
    } else {
        run_start(text, at - 1)
    }
}

/// Whether the characters of `text` from `at` on are those of `word`, but for the case
/// of ASCII letters.
pub open spec fn spells(text: Seq<char>, at: int, word: Seq<char>) -> bool {
    at + word.len() <= text.len() && forall|k: int|
        0 <= k < word.len() ==> ascii_lower(text[at + k]) == #[trigger] word[k]
}

/// Whether `word` stands in `text` at `at`, and ends there. It begins there, or follows
/// a number without a space between.
pub open spec fn word_at(text: Seq<char>, at: int, word: Seq<char>) -> bool {
    &&& 0 <= at
    &&& spells(text, at, word)
    &&& at + word.len() < text.len() ==> !is_word_char(text[at + word.len()])
    &&& run_start(text, at) < at ==> is_digit_char(text[run_start(text, at)])
}

/// Whether no word stands between two places.
pub open spec fn no_word_between(text: Seq<char>, from: int, to: int) -> bool {
    forall|k: int| from <= k < to ==> !is_word_char(#[trigger] text[k])
}

/// Whether `words` stand in `text` from `from` on, one after the other, with other words
/// between them only where these may be `apart`.
pub open spec fn words_follow(
    text: Seq<char>,
    from: int,
    words: Seq<Seq<char>>,
    apart: bool,
) -> bool
    decreases words.len(),
{
    words.len() == 0 || exists|at: int|
        from <= at && #[trigger] word_at(text, at, words[0]) && (apart || no_word_between(
            text,
            from,
            at,
        )) && words_follow(text, (at + words[0].len()) as int, words.drop_first(), apart)
}

/// Whether `first` stands in `text` with `words` after it.
pub open spec fn words_in(
    text: Seq<char>,
    first: Seq<char>,
    words: Seq<Seq<char>>,
    apart: bool,
) -> bool {
    exists|at: int| #[trigger]
        word_at(text, at, first) && words_follow(text, (at + first.len()) as int, words, apart)
}

/// Whether a comment may begin at `at`.
pub open spec fn comment_at(text: Seq<char>, at: int) -> bool {
    0 <= at < text.len() - 1 && ((text[at] == '-' && text[at + 1] == '-') || (text[at] == '/'
        && text[at + 1] == '*'))
}

/// Whether a text may hold a comment.
pub open spec fn has_comment(text: Seq<char>) -> bool {
    exists|at: int| #[trigger] comment_at(text, at)
}

/// The words of `AUTHORIZATION`, as it stands after `SET`, in small letters.
pub open spec fn authorization() -> Seq<Seq<char>> {
    seq!["authorization"@]
}

/// The same, as it stands after `SET` and a colon.
pub open spec fn variable_authorization() -> Seq<Seq<char>> {
    seq!["hivevar"@, "authorization"@]
}

/// The words of `FLUSH RELAY LOGS FOR CHANNEL` after `RELAY`.
pub open spec fn relay_channel() -> Seq<Seq<char>> {
    seq!["logs"@, "for"@, "channel"@]
}

/// The words of `LIMIT ALL BY` after `LIMIT`.
pub open spec fn limit_all_by() -> Seq<Seq<char>> {
    seq!["all"@, "by"@]
}

/// Whether a text has the words of a statement that the parser does not answer, next to
/// each other, or further apart where they may be. It gives up on `SET AUTHORIZATION`
/// without a scope and on `FLUSH RELAY LOGS FOR CHANNEL` without a name, and does not
/// write `LIMIT ALL BY` down again.
pub open spec fn has_hard_words(text: Seq<char>, apart: bool) -> bool {
    ||| words_in(text, "set"@, authorization(), apart)
    ||| words_in(text, "set"@, variable_authorization(), apart)
    ||| words_in(text, "relay"@, relay_channel(), apart)
    ||| words_in(text, "limit"@, limit_all_by(), apart)
}

/// Where a place in a text is.
#[derive(Clone, Copy, Debug, PartialEq, Eq, Structural)]
pub enum Within {
    Code,
    /// In a comment up to the end of the line.
    Line,
    /// In a comment between slashes and stars.
    Block,
    /// In a quoted text or name, with this quote.
    Quoted(char),
}

/// Whether the two characters at `at` are these.
pub open spec fn pair_at(text: Seq<char>, at: int, first: char, second: char) -> bool {
    at + 1 < text.len() && text[at] == first && text[at + 1] == second
}

/// Whether a quote at `at` begins a text or a name that ends with the same quote, and
/// nothing before it says otherwise.
pub open spec fn opens_plainly(text: Seq<char>, at: int) -> bool {
    at == 0 || (!is_word_char(text[at - 1]) && text[at - 1] != '&')
}

/// Whether the two characters at `at` begin a comment, if they can, and neither belongs to
/// an operator or a name before.
pub open spec fn comment_opens_plainly(text: Seq<char>, at: int) -> bool {
    at == 0 || {
        let before = text[at - 1];
        before != '<' && before != '|' && before != '/' && before != '?' && before != '#'
            && before != '@'
    }
}

/// Characters in front of those that may follow.
pub open spec fn in_front(first: Seq<char>, rest: Option<Seq<char>>) -> Option<Seq<char>> {
    match rest {
        Some(rest) => Some(first + rest),
        None => None,
    }
}

/// The code of a text from `at` on: comments are blank, and what is quoted is one word.
/// There is none where a quote may be of another kind, where a comment may be none or
/// holds another one or code, or where there is a dollar sign.
pub open spec fn bare_code(text: Seq<char>, at: int, within: Within) -> Option<Seq<char>>
    decreases text.len() - at,
{
    if at >= text.len() {
        Some(Seq::empty())
    } else {
        let c = text[at];
        match within {
            Within::Code => if pair_at(text, at, '-', '-') {
                if comment_opens_plainly(text, at) {
                    in_front(seq![' ', ' '], bare_code(text, at + 2, Within::Line))
                } else {
                    None
                }
            } else if pair_at(text, at, '/', '*') {
                if comment_opens_plainly(text, at) && !(at + 2 < text.len() && text[at + 2] == '!') {
                    in_front(seq![' ', ' '], bare_code(text, at + 2, Within::Block))
                } else {
                    None
                }
            } else if c == '\'' || c == '"' || c == '`' {
                if opens_plainly(text, at) {
                    in_front(seq![c], bare_code(text, at + 1, Within::Quoted(c)))
                } else {
                    None
                }
            } else if c == '$' {
                None
            } else {
                in_front(seq![c], bare_code(text, at + 1, Within::Code))
            },
            Within::Line => if c == '\n' {
                in_front(seq![c], bare_code(text, at + 1, Within::Code))
            } else {
                in_front(seq![' '], bare_code(text, at + 1, Within::Line))
            },
            Within::Block => if pair_at(text, at, '*', '/') {
                in_front(seq![' ', ' '], bare_code(text, at + 2, Within::Code))
            } else if pair_at(text, at, '/', '*') {
                None
            } else {
                in_front(seq![' '], bare_code(text, at + 1, Within::Block))
            },
            Within::Quoted(quote) => if c == quote {
                in_front(seq![c], bare_code(text, at + 1, Within::Code))
            } else {
                in_front(seq!['_'], bare_code(text, at + 1, Within::Quoted(quote)))
            },
        }
    }
}

/// Whether a text may hold a statement that the parser does not answer: its code has the
/// words of one next to each other. Where it cannot be told what is code, the whole text
/// counts, and with a comment in it the words may be further apart.
pub open spec fn unanswered(sql: Seq<char>) -> bool {
    match bare_code(sql, 0, Within::Code) {
        Some(code) => has_hard_words(code, false),
        None => has_hard_words(sql, has_comment(sql)),
    }
}

/// What is said of a text that is not handed to the parser.
pub open spec fn unanswered_text() -> Seq<char> {
    "SET AUTHORIZATION, FLUSH RELAY LOGS FOR CHANNEL and LIMIT ALL BY cannot be read"@
}

fn word_char(c: char) -> (yes: bool)
    ensures
        yes == is_word_char(c),
{
    let n: u32 = code_of(c);
    (48 <= n && n <= 57) || (65 <= n && n <= 90) || (97 <= n && n <= 122) || n == 95 || n == 36
        || n == 64 || n == 35
}

fn run_begin(text: &Vec<char>, at: usize) -> (start: usize)
    requires
        at <= text@.len(),
    ensures
        start == run_start(text@, at as int),
        start <= at,
{
    let mut start: usize = at;
    while start > 0 && word_char(text[start - 1])
        invariant
            start <= at <= text@.len(),
            run_start(text@, at as int) == run_start(text@, start as int),
        decreases start,
    {
        start = start - 1;
    }
    start
}

fn is_spelled(text: &Vec<char>, at: usize, word: &Vec<char>) -> (yes: bool)
    requires
        at <= text@.len(),
    ensures
        yes == spells(text@, at as int, word@),
{
    let length: usize = text.len();
    if word.len() > length - at {
        return false;
    }
    let mut k: usize = 0;
    while k < word.len()
        invariant
            at + word@.len() <= text@.len(),
            length == text@.len(),
            k <= word@.len(),
            forall|j: int| 0 <= j < k ==> ascii_lower(text@[at + j]) == #[trigger] word@[j],
        decreases word@.len() - k,
    {
        let n: u32 = code_of(text[at + k]);
        let small: u32 = if 65 <= n && n <= 90 {
            n + 32
        } else {
            n
        };
        if small != code_of(word[k]) {
            assert(ascii_lower(text@[at + k]) != word@[k as int]);
            return false;
        }
        k = k + 1;
    }
    true
}

fn stands_at(text: &Vec<char>, at: usize, word: &Vec<char>) -> (yes: bool)
    requires
        at <= text@.len(),
    ensures
        yes == word_at(text@, at as int, word@),
{
    if !is_spelled(text, at, word) {
        return false;
    }
    let length: usize = text.len();
    let end: usize = at + word.len();
    if end < length && word_char(text[end]) {
        return false;
    }
    let start: usize = run_begin(text, at);
    if start < at {
        let n: u32 = code_of(text[start]);
        return 48 <= n && n <= 57;
    }
    true
}

/// Where a word stands first, from `from` on.
fn find_word(text: &Vec<char>, from: usize, word: &Vec<char>) -> (found: Option<usize>)
    requires
        from <= text@.len(),
        word@.len() > 0,
    ensures
        match found {
            Some(at) => from <= at < text@.len() && word_at(text@, at as int, word@) && forall|
                k: int,
            |
                from <= k < at ==> !#[trigger] word_at(text@, k, word@),
            None => forall|k: int| from <= k ==> !#[trigger] word_at(text@, k, word@),
        },
{
    let mut at: usize = from;
    while at < text.len()
        invariant
            from <= at <= text@.len(),
            word@.len() > 0,
            forall|k: int| from <= k < at ==> !#[trigger] word_at(text@, k, word@),
        decreases text@.len() - at,
    {
        if stands_at(text, at, word) {
            return Some(at);
        }
        at = at + 1;
    }
    None
}

/// What follows further on follows an earlier place too, where words may be apart.
proof fn lemma_earlier(text: Seq<char>, early: int, late: int, words: Seq<Seq<char>>)
    requires
        early <= late,
        words_follow(text, late, words, true),
    ensures
        words_follow(text, early, words, true),
{
    if words.len() > 0 {
        let at = choose|at: int|
            late <= at && #[trigger] word_at(text, at, words[0]) && words_follow(
                text,
                (at + words[0].len()) as int,
                words.drop_first(),
                true,
            );
        assert(early <= at && word_at(text, at, words[0]));
    }
}

/// The characters of these words.
pub open spec fn word_views(words: Seq<Vec<char>>) -> Seq<Seq<char>> {
    words.map_values(|word: Vec<char>| word@)
}

/// Whether these are words: none is empty, and each begins with a word character.
pub open spec fn are_words(words: Seq<Vec<char>>) -> bool {
    forall|i: int|
        0 <= i < words.len() ==> (#[trigger] words[i])@.len() > 0 && 97 <= words[i]@[0] as int
            <= 122
}

/// Where the next word after `from` begins.
fn next_word(text: &Vec<char>, from: usize) -> (at: usize)
    requires
        from <= text@.len(),
    ensures
        from <= at <= text@.len(),
        no_word_between(text@, from as int, at as int),
        at < text@.len() ==> is_word_char(text@[at as int]),
{
    let mut at: usize = from;
    while at < text.len() && !word_char(text[at])
        invariant
            from <= at <= text@.len(),
            no_word_between(text@, from as int, at as int),
        decreases text@.len() - at,
    {
        at = at + 1;
    }
    at
}

/// Where `word` is next, from `from` on.
fn find_next(text: &Vec<char>, from: usize, word: &Vec<char>, apart: bool) -> (found: Option<usize>)
    requires
        from <= text@.len(),
        word@.len() > 0,
        97 <= word@[0] as int <= 122,
    ensures
        match found {
            Some(at) => from <= at < text@.len() && word_at(text@, at as int, word@) && (apart
                || no_word_between(text@, from as int, at as int)) && forall|k: int|
                from <= k && #[trigger] word_at(text@, k, word@) && (apart || no_word_between(
                    text@,
                    from as int,
                    k,
                )) ==> at <= k && (apart || at == k),
            None => forall|k: int|
                from <= k ==> !(#[trigger] word_at(text@, k, word@) && (apart || no_word_between(
                    text@,
                    from as int,
                    k,
                ))),
        },
{
    if apart {
        return find_word(text, from, word);
    }
    let at: usize = next_word(text, from);
    proof {
        assert forall|k: int|
            from <= k && #[trigger] word_at(text@, k, word@) && no_word_between(
                text@,
                from as int,
                k,
            ) implies k == at by {
            assert(ascii_lower(text@[k + 0]) == word@[0]);
            assert(is_word_char(text@[k]));
            if at < k {
                assert(is_word_char(text@[at as int]));
            }
        }
    }
    if stands_at(text, at, word) {
        assert(spells(text@, at as int, word@));
        Some(at)
    } else {
        None
    }
}

/// Whether the words follow `from`.
fn follow(text: &Vec<char>, from: usize, words: &Vec<Vec<char>>, apart: bool) -> (yes: bool)
    requires
        from <= text@.len(),
        are_words(words@),
    ensures
        yes == words_follow(text@, from as int, word_views(words@), apart),
{
    let ghost all = word_views(words@);
    let length: usize = text.len();
    let mut place: usize = from;
    let mut i: usize = 0;
    assert(all.skip(0) =~= all);
    while i < words.len()
        invariant
            all == word_views(words@),
            i <= words@.len(),
            place <= text@.len(),
            length == text@.len(),
            are_words(words@),
            words_follow(text@, from as int, all, apart) == words_follow(
                text@,
                place as int,
                all.skip(i as int),
                apart,
            ),
        decreases words@.len() - i,
    {
        let ghost left = all.skip(i as int);
        let ghost word = words@[i as int]@;
        assert(left[0] == word);
        assert(left.drop_first() =~= all.skip(i + 1));
        match find_next(text, place, &words[i], apart) {
            Some(at) => {
                assert(spells(text@, at as int, word));
                proof {
                    if words_follow(text@, place as int, left, apart) {
                        let other = choose|other: int|
                            place <= other && #[trigger] word_at(text@, other, left[0]) && (apart
                                || no_word_between(text@, place as int, other)) && words_follow(
                                text@,
                                (other + left[0].len()) as int,
                                left.drop_first(),
                                apart,
                            );
                        assert(word_at(text@, other, word));
                        if apart {
                            lemma_earlier(
                                text@,
                                at + word.len(),
                                other + word.len(),
                                left.drop_first(),
                            );
                        }
                    }
                    if words_follow(text@, at + word.len(), left.drop_first(), apart) {
                        assert(place <= at && word_at(text@, at as int, left[0]));
                    }
                }
                place = at + words[i].len();
            },
            None => {
                assert(!words_follow(text@, place as int, left, apart));
                return false;
            },
        }
        i = i + 1;
    }
    true
}

/// Whether `first` stands in the text with `words` after it.
fn find_words(text: &Vec<char>, first: &Vec<char>, words: &Vec<Vec<char>>, apart: bool) -> (yes:
    bool)
    requires
        first@.len() > 0,
        are_words(words@),
    ensures
        yes == words_in(text@, first@, word_views(words@), apart),
{
    let length: usize = text.len();
    let mut from: usize = 0;
    while from < length
        invariant
            from <= length,
            length == text@.len(),
            first@.len() > 0,
            are_words(words@),
            forall|k: int|
                0 <= k < from ==> !(#[trigger] word_at(text@, k, first@) && words_follow(
                    text@,
                    (k + first@.len()) as int,
                    word_views(words@),
                    apart,
                )),
        decreases length - from,
    {
        match find_word(text, from, first) {
            Some(at) => {
                assert(spells(text@, at as int, first@));
                let end: usize = at + first.len();
                if follow(text, end, words, apart) {
                    return true;
                }
                from = at + 1;
            },
            None => {
                return false;
            },
        }
    }
    false
}

/// Whether a text may hold a comment.
fn find_comment(text: &Vec<char>) -> (yes: bool)
    ensures
        yes == has_comment(text@),
{
    let length: usize = text.len();
    let mut at: usize = 0;
    while at < length
        invariant
            at <= length,
            length == text@.len(),
            forall|k: int| 0 <= k < at ==> !#[trigger] comment_at(text@, k),
        decreases length - at,
    {
        if at < length - 1 && ((text[at] == '-' && text[at + 1] == '-') || (text[at] == '/'
            && text[at + 1] == '*')) {
            assert(comment_at(text@, at as int));
            return true;
        }
        at = at + 1;
    }
    false
}

fn is_pair(text: &Vec<char>, at: usize, first: char, second: char) -> (yes: bool)
    requires
        at < text@.len(),
    ensures
        yes == pair_at(text@, at as int, first, second),
{
    let length: usize = text.len();
    at + 1 < length && text[at] == first && text[at + 1] == second
}

fn is_plain_comment(text: &Vec<char>, at: usize) -> (yes: bool)
    requires
        at < text@.len(),
    ensures
        yes == comment_opens_plainly(text@, at as int),
{
    if at == 0 {
        return true;
    }
    let before: char = text[at - 1];
    before != '<' && before != '|' && before != '/' && before != '?' && before != '#' && before
        != '@'
}

/// The code of a text, where it can be told.
fn find_code(text: &Vec<char>) -> (code: Option<Vec<char>>)
    ensures
        match code {
            Some(code) => bare_code(text@, 0, Within::Code) == Some(code@),
            None => bare_code(text@, 0, Within::Code) is None,
        },
{
    let length: usize = text.len();
    let mut code: Vec<char> = Vec::new();
    let mut within = Within::Code;
    let mut at: usize = 0;
    proof {
        let all = bare_code(text@, 0, Within::Code);
        if let Some(all) = all {
            assert(Seq::<char>::empty() + all =~= all);
        }
    }
    while at < length
        invariant
            length == text@.len(),
            at <= length,
            bare_code(text@, 0, Within::Code) == in_front(
                code@,
                bare_code(text@, at as int, within),
            ),
        decreases length - at,
    {
        let ghost before = code@;
        let ghost from = at as int;
        let ghost was = within;
        let c: char = text[at];
        match within {
            Within::Code => {
                if is_pair(text, at, '-', '-') {
                    if !is_plain_comment(text, at) {
                        return None;
                    }
                    code.push(' ');
                    code.push(' ');
                    within = Within::Line;
                    at = at + 2;
                } else if is_pair(text, at, '/', '*') {
                    if !is_plain_comment(text, at) || (at + 2 < length && text[at + 2] == '!') {
                        return None;
                    }
                    code.push(' ');
                    code.push(' ');
                    within = Within::Block;
                    at = at + 2;
                } else if c == '\'' || c == '"' || c == '`' {
                    if at > 0 && (word_char(text[at - 1]) || text[at - 1] == '&') {
                        return None;
                    }
                    code.push(c);
                    within = Within::Quoted(c);
                    at = at + 1;
                } else if c == '$' {
                    return None;
                } else {
                    code.push(c);
                    at = at + 1;
                }
            },
            Within::Line => {
                if c == '\n' {
                    code.push(c);
                    within = Within::Code;
                } else {
                    code.push(' ');
                }
                at = at + 1;
            },
            Within::Block => {
                if is_pair(text, at, '*', '/') {
                    code.push(' ');
                    code.push(' ');
                    within = Within::Code;
                    at = at + 2;
                } else if is_pair(text, at, '/', '*') {
                    return None;
                } else {
                    code.push(' ');
                    at = at + 1;
                }
            },
            Within::Quoted(quote) => {
                if c == quote {
                    code.push(c);
                    within = Within::Code;
                } else {
                    code.push('_');
                }
                at = at + 1;
            },
        }
        proof {
            let rest = bare_code(text@, at as int, within);
            if let Some(rest) = rest {
                let added = code@.skip(before.len() as int);
                assert(code@ =~= before + added);
                assert(before + (added + rest) =~= code@ + rest);
                if at == from + 2 {
                    assert(added =~= seq![' ', ' ']);
                } else {
                    assert(added =~= seq![code@[before.len() as int]]);
                }
                assert(bare_code(text@, from, was) == Some(added + rest));
            } else {
                assert(bare_code(text@, from, was) is None);
            }
        }
    }
    proof {
        assert(code@ + Seq::<char>::empty() =~= code@);
    }
    Some(code)
}

/// Whether a text has the words of a statement that the parser does not answer.
fn find_hard_words(text: &Vec<char>, apart: bool) -> (yes: bool)
    ensures
        yes == has_hard_words(text@, apart),
{
    let set = chars_of("set");
    let user = vec![chars_of("authorization")];
    let variable = vec![chars_of("hivevar"), chars_of("authorization")];
    let channel = vec![chars_of("logs"), chars_of("for"), chars_of("channel")];
    let all = vec![chars_of("all"), chars_of("by")];
    proof {
        reveal_strlit("set");
        reveal_strlit("authorization");
        reveal_strlit("hivevar");
        reveal_strlit("relay");
        reveal_strlit("logs");
        reveal_strlit("for");
        reveal_strlit("channel");
        reveal_strlit("limit");
        reveal_strlit("all");
        reveal_strlit("by");
        assert(word_views(user@) =~= authorization());
        assert(word_views(variable@) =~= variable_authorization());
        assert(word_views(channel@) =~= relay_channel());
        assert(word_views(all@) =~= limit_all_by());
    }
    find_words(text, &set, &user, apart) || find_words(text, &set, &variable, apart) || find_words(
        text,
        &chars_of("relay"),
        &channel,
        apart,
    ) || find_words(text, &chars_of("limit"), &all, apart)
}

/// Whether a text may hold a statement that the parser does not answer.
pub fn stays_unanswered(sql: &str) -> (yes: bool)
    ensures
        yes == unanswered(sql@),
{
    let text = chars_of(sql);
    match find_code(&text) {
        Some(code) => find_hard_words(&code, false),
        None => find_hard_words(&text, find_comment(&text)),
    }
}

} // verus!
