//! Text primitives used by the rule engine: substring search, case folding
//! and template substitution, all stated over sequences of characters.

use vstd::prelude::*;
use vstd::std_specs::iter::IteratorSpec;
use vstd::string::*;

verus! {

/// `pattern` occurs in `text` starting at character index `at`.
pub open spec fn occurs_at(text: Seq<char>, pattern: Seq<char>, at: int) -> bool {
    &&& 0 <= at
    &&& at + pattern.len() <= text.len()
    &&& text.subrange(at, at + pattern.len()) == pattern
}

/// `pattern` occurs somewhere in `text`. The empty pattern occurs in every text.
pub open spec fn occurs_in(text: Seq<char>, pattern: Seq<char>) -> bool {
    exists|at: int| occurs_at(text, pattern, at)
}

/// `text` with every occurrence of `pattern` replaced by `with`, scanning from
/// the left; occurrences that overlap an earlier one are not replaced. An empty
/// `pattern` replaces nothing.
pub open spec fn replace_all(text: Seq<char>, pattern: Seq<char>, with: Seq<char>) -> Seq<char>
    decreases text.len(),
{
    if pattern.len() == 0 || text.len() < pattern.len() {
        text
    } else if text.subrange(0, pattern.len() as int) == pattern {
        with + replace_all(text.subrange(pattern.len() as int, text.len() as int), pattern, with)
    } else {
        seq![text[0]] + replace_all(text.drop_first(), pattern, with)
    }
}

/// The marker that a transform template uses for the original text.
pub open spec fn marker() -> Seq<char> {
    "{content}"@
}

/// The text that a transform template yields for `original`.
pub open spec fn substitute(template: Seq<char>, original: Seq<char>) -> Seq<char> {
    replace_all(template, marker(), original)
}

/// The lowercase form of a text, as `str::to_lowercase` computes it.
pub uninterp spec fn lowercased(text: Seq<char>) -> Seq<char>;

/// Case-insensitive containment: the folded keyword occurs in the folded text.
pub open spec fn keyword_occurs(text: Seq<char>, keyword: Seq<char>) -> bool {
    occurs_in(lowercased(text), lowercased(keyword))
}

/// Keyword matching ignores case: texts that agree in lowercase contain the
/// same keywords, and keywords that agree in lowercase occur in the same
/// texts.
pub proof fn law_keyword_ignores_case(
    text: Seq<char>,
    keyword: Seq<char>,
    other_text: Seq<char>,
    other_keyword: Seq<char>,
)
    requires
        lowercased(text) == lowercased(other_text),
        lowercased(keyword) == lowercased(other_keyword),
    ensures
        keyword_occurs(text, keyword) == keyword_occurs(other_text, other_keyword),
{
}

/// Characters before the first occurrence of the pattern are copied.
proof fn lemma_replace_copies_front(
    text: Seq<char>,
    pattern: Seq<char>,
    with: Seq<char>,
    upto: int,
)
    requires
        pattern.len() > 0,
        0 <= upto <= text.len(),
        forall|at: int| 0 <= at < upto ==> !occurs_at(text, pattern, at),
    ensures
        replace_all(text, pattern, with) == text.take(upto) + replace_all(
            text.skip(upto),
            pattern,
            with,
        ),
    decreases upto,
{
    if upto == 0 {
        assert(text.skip(0) =~= text);
        assert(text.take(0) + text =~= text);
    } else if text.len() < pattern.len() {
        assert(text.take(upto) + text.skip(upto) =~= text);
    } else {
        let rest = text.drop_first();
        assert(!occurs_at(text, pattern, 0));
        assert forall|at: int| 0 <= at < upto - 1 implies !occurs_at(rest, pattern, at) by {
            assert(!occurs_at(text, pattern, at + 1));
            if at + pattern.len() <= rest.len() {
                assert(rest.subrange(at, at + pattern.len()) =~= text.subrange(
                    at + 1,
                    at + 1 + pattern.len(),
                ));
            }
        }
        lemma_replace_copies_front(rest, pattern, with, upto - 1);
        assert(rest.skip(upto - 1) =~= text.skip(upto));
        assert(seq![text[0]] + (rest.take(upto - 1) + replace_all(text.skip(upto), pattern, with))
            =~= text.take(upto) + replace_all(text.skip(upto), pattern, with));
    }
}

/// A text in which the pattern does not occur is left as it is.
pub proof fn law_text_without_pattern_is_kept(
    text: Seq<char>,
    pattern: Seq<char>,
    with: Seq<char>,
)
    requires
        !occurs_in(text, pattern),
    ensures
        replace_all(text, pattern, with) == text,
{
    if pattern.len() > 0 {
        assert forall|at: int| 0 <= at < text.len() implies !occurs_at(text, pattern, at) by {}
        lemma_replace_copies_front(text, pattern, with, text.len() as int);
        assert(text.skip(text.len() as int) =~= Seq::<char>::empty());
        assert(text.take(text.len() as int) + Seq::<char>::empty() =~= text);
    }
}

/// A text that holds the pattern once, between `before` and `after`, becomes
/// `before`, the replacement and `after`.
pub proof fn law_single_occurrence_is_replaced(
    before: Seq<char>,
    pattern: Seq<char>,
    after: Seq<char>,
    with: Seq<char>,
)
    requires
        pattern.len() > 0,
        forall|at: int| 0 <= at < before.len() ==> !occurs_at(before + pattern + after, pattern, at),
        !occurs_in(after, pattern),
    ensures
        replace_all(before + pattern + after, pattern, with) == before + with + after,
{
    let text = before + pattern + after;
    let start = before.len() as int;
    lemma_replace_copies_front(text, pattern, with, start);
    let tail = text.skip(start);
    assert(tail =~= pattern + after);
    assert(text.take(start) =~= before);
    assert(tail.subrange(0, pattern.len() as int) =~= pattern);
    assert(tail.subrange(pattern.len() as int, tail.len() as int) =~= after);
    law_text_without_pattern_is_kept(after, pattern, with);
    assert(before + (with + after) =~= before + with + after);
}

/// A template with one marker yields the text around the marker with the
/// original text in its place; a template without a marker yields itself.
pub proof fn law_template_with_one_marker(
    before: Seq<char>,
    after: Seq<char>,
    original: Seq<char>,
)
    requires
        forall|at: int|
            0 <= at < before.len() ==> !occurs_at(before + marker() + after, marker(), at),
        !occurs_in(after, marker()),
    ensures
        substitute(before + marker() + after, original) == before + original + after,
        substitute(after, original) == after,
{
    reveal_strlit("{content}");
    law_single_occurrence_is_replaced(before, marker(), after, original);
    law_text_without_pattern_is_kept(after, marker(), original);
}

/// `str::to_lowercase`: the result is the lowercase form of `text` under
/// Unicode's rules. Those rules are not restated here: the result is named.
#[verifier::external_body]
fn lowercase(text: &str) -> (folded: String)
    ensures
        folded@ == lowercased(text@),
{
    text.to_lowercase()
}

/// `String::push`: appends one character to the end of the string.
#[verifier::external_body]
fn push_char(out: &mut String, c: char)
    ensures
        final(out)@ == old(out)@.push(c),
{
    out.push(c)
}

/// `str == str`: two string slices are equal when they hold the same
/// characters in the same order.
#[verifier::external_body]
pub(crate) fn same_text(a: &str, b: &str) -> (same: bool)
    ensures
        same == (a@ == b@),
{
    a == b
}

/// The characters of `text`, in order.
pub fn to_chars(text: &str) -> (chars: Vec<char>)
    ensures
        chars@ == text@,
{
    broadcast use group_string_axioms;

    let mut chars: Vec<char> = Vec::new();
    let source = text.chars();
    for c in it: source
        invariant
            it.seq() == text@,
            chars@ == it.seq().take(it.index() as int),
    {
        chars.push(c);
    }
    chars
}

/// Whether `pattern` occurs in `text` at index `at`.
fn matches_at(text: &Vec<char>, pattern: &Vec<char>, at: usize) -> (found: bool)
    requires
        at + pattern.len() <= text.len(),
    ensures
        found == occurs_at(text@, pattern@, at as int),
{
    let mut k: usize = 0;
    while k < pattern.len()
        invariant
            k <= pattern.len(),
            at + pattern.len() <= text.len(),
            forall|j: int| 0 <= j < k ==> text@[at + j] == pattern@[j],
        decreases pattern.len() - k,
    {
        if text[at + k] != pattern[k] {
            proof {
                let window = text@.subrange(at as int, at + pattern.len());
                assert(window[k as int] == text@[at + k]);
            }
            return false;
        }
        k += 1;
    }
    assert(text@.subrange(at as int, at + pattern.len()) =~= pattern@);
    true
}

/// Whether `pattern` occurs in `text`.
pub fn contains_chars(text: &Vec<char>, pattern: &Vec<char>) -> (found: bool)
    ensures
        found == occurs_in(text@, pattern@),
{
    if pattern.len() > text.len() {
        return false;
    }
    let last: usize = text.len() - pattern.len();
    let mut at: usize = 0;
    while at < last
        invariant
            last == text.len() - pattern.len(),
            at <= last,
            forall|j: int| 0 <= j < at ==> !occurs_at(text@, pattern@, j),
        decreases last - at,
    {
        if matches_at(text, pattern, at) {
            return true;
        }
        at += 1;
    }
    matches_at(text, pattern, last)
}

/// Whether `pattern` occurs in `text`.
pub fn contains(text: &str, pattern: &str) -> (found: bool)
    ensures
        found == occurs_in(text@, pattern@),
{
    let text_chars = to_chars(text);
    let pattern_chars = to_chars(pattern);
    contains_chars(&text_chars, &pattern_chars)
}

/// Whether `keyword` occurs in `text` when both are taken in lowercase.
pub fn contains_ignoring_case(text: &str, keyword: &str) -> (found: bool)
    ensures
        found == keyword_occurs(text@, keyword@),
{
    let folded_text = lowercase(text);
    let folded_keyword = lowercase(keyword);
    contains(folded_text.as_str(), folded_keyword.as_str())
}

/// `text` with every occurrence of the non-empty `pattern` replaced by `with`.
pub fn replace(text: &str, pattern: &str, with: &str) -> (out: String)
    requires
        pattern@.len() > 0,
    ensures
        out@ == replace_all(text@, pattern@, with@),
{
    let chars = to_chars(text);
    let pat = to_chars(pattern);
    let n: usize = chars.len();
    let m: usize = pat.len();
    let mut out = String::new();
    let mut i: usize = 0;
    proof {
        assert(chars@.subrange(0, n as int) =~= chars@);
        assert(out@ + replace_all(chars@, pat@, with@) =~= replace_all(chars@, pat@, with@));
    }
    while i < n
        invariant
            n == chars.len(),
            m == pat.len(),
            m > 0,
            chars@ == text@,
            pat@ == pattern@,
            i <= n,
            out@ + replace_all(chars@.subrange(i as int, n as int), pat@, with@) == replace_all(
                chars@,
                pat@,
                with@,
            ),
        decreases n - i,
    {
        let ghost rest = chars@.subrange(i as int, n as int);
        if m <= n - i && matches_at(&chars, &pat, i) {
            proof {
                assert(rest.subrange(0, m as int) =~= chars@.subrange(i as int, i + m));
                assert(rest.subrange(m as int, rest.len() as int) =~= chars@.subrange(
                    i + m,
                    n as int,
                ));
                assert(out@ + (with@ + replace_all(chars@.subrange(i + m, n as int), pat@, with@))
                    =~= (out@ + with@) + replace_all(chars@.subrange(i + m, n as int), pat@, with@));
            }
            out.append(with);
            i += m;
        } else {
            let c = chars[i];
            proof {
                if m <= n - i {
                    assert(rest.subrange(0, m as int) =~= chars@.subrange(i as int, i + m));
                    assert(rest.drop_first() =~= chars@.subrange(i + 1, n as int));
                    assert(rest[0] == c);
                    assert(out@ + (seq![c] + replace_all(
                        chars@.subrange(i + 1, n as int),
                        pat@,
                        with@,
                    )) =~= out@.push(c) + replace_all(chars@.subrange(i + 1, n as int), pat@, with@));
                } else {
                    // Fewer characters remain than the pattern holds: the rest is copied.
                    let tail = chars@.subrange(i + 1, n as int);
                    assert(replace_all(rest, pat@, with@) == rest);
                    assert(replace_all(tail, pat@, with@) == tail);
                    assert(out@ + rest =~= out@.push(c) + tail);
                }
            }
            push_char(&mut out, c);
            i += 1;
        }
    }
    proof {
        assert(chars@.subrange(n as int, n as int) =~= Seq::<char>::empty());
        assert(out@ + Seq::<char>::empty() =~= out@);
    }
    out
}

/// The text that `template` yields when its marker stands for `original`.
pub fn fill_template(template: &str, original: &str) -> (out: String)
    ensures
        out@ == substitute(template@, original@),
{
    proof {
        reveal_strlit("{content}");
    }
    replace(template, "{content}", original)
}

} // verus!
