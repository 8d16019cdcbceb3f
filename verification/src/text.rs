//! Text as sequences of characters: trimming, splitting, joining and decimal numbers.

use vstd::prelude::*;
use vstd::utf8::encode_utf8;

verus! {

/// `String::push`: the character is appended at the end.
pub assume_specification[ String::push ](s: &mut String, c: char)
    ensures
        final(s)@ == old(s)@.push(c),
;

/// The views of the elements, in order.
pub open spec fn views<T: View>(s: Seq<T>) -> Seq<T::V> {
    Seq::new(s.len(), |i: int| s[i].view())
}

/// Adding an element adds its view.
pub broadcast proof fn lemma_views_push<T: View>(s: Seq<T>, x: T)
    ensures
        #[trigger] views(s.push(x)) == views(s).push(x.view()),
{
    assert(views(s.push(x)) =~= views(s).push(x.view()));
}

/// An executable result shows what a mathematical one says: the same value, or the same message.
pub open spec fn agrees<T: View>(r: Result<T, String>, s: Result<T::V, Seq<char>>) -> bool {
    match (r, s) {
        (Ok(value), Ok(model)) => value.view() == model,
        (Err(message), Err(model)) => message@ == model,
        _ => false,
    }
}

/// The view of an optional value.
pub open spec fn view_option<T: View>(value: Option<T>) -> Option<T::V> {
    match value {
        Some(inner) => Some(inner.view()),
        None => None,
    }
}

/// Whether two texts hold the same characters.
pub fn same(a: &str, b: &str) -> (r: bool)
    ensures
        r == (a@ == b@),
{
    a.to_owned() == b.to_owned()
}

/// A copy of a list of texts.
pub fn copy_texts(items: &[String]) -> (r: Vec<String>)
    ensures
        views(r@) == views(items@),
{
    let mut out: Vec<String> = Vec::new();
    let mut i: usize = 0;
    while i < items.len()
        invariant
            i <= items@.len(),
            views(out@) == views(items@).take(i as int),
        decreases items.len() - i,
    {
        let ghost before = out@;
        out.push(items[i].clone());
        proof {
            lemma_views_push(before, out@.last());
            assert(out@ =~= before.push(out@.last()));
            assert(views(out@) =~= views(items@).take(i + 1));
        }
        i += 1;
    }
    proof {
        assert(views(items@).take(i as int) =~= views(items@));
    }
    out
}

/// Whether a list of texts holds `item`.
pub fn holds_text(items: &[String], item: &str) -> (r: bool)
    ensures
        r == views(items@).contains(item@),
{
    let mut i: usize = 0;
    while i < items.len()
        invariant
            i <= items@.len(),
            forall|k: int| 0 <= k < i ==> views(items@)[k] != item@,
        decreases items.len() - i,
    {
        if same(items[i].as_str(), item) {
            proof {
                assert(views(items@)[i as int] == item@);
            }
            return true;
        }
        i += 1;
    }
    false
}

// Characters and slices of text.

/// Characters with the Unicode `White_Space` property.
pub open spec fn is_white(c: char) -> bool {
    ||| '\u{9}' <= c <= '\u{d}'
    ||| c == ' '
    ||| c == '\u{85}'
    ||| c == '\u{a0}'
    ||| c == '\u{1680}'
    ||| '\u{2000}' <= c <= '\u{200a}'
    ||| c == '\u{2028}'
    ||| c == '\u{2029}'
    ||| c == '\u{202f}'
    ||| c == '\u{205f}'
    ||| c == '\u{3000}'
}

/// Whether `c` is whitespace.
pub fn is_whitespace(c: char) -> (r: bool)
    ensures
        r == is_white(c),
{
    ('\u{9}' <= c && c <= '\u{d}') || c == ' ' || c == '\u{85}' || c == '\u{a0}' || c == '\u{1680}'
        || ('\u{2000}' <= c && c <= '\u{200a}') || c == '\u{2028}' || c == '\u{2029}'
        || c == '\u{202f}' || c == '\u{205f}' || c == '\u{3000}'
}

/// The characters of a string, in order.
pub fn chars_of(s: &str) -> (r: Vec<char>)
    ensures
        r@ == s@,
{
    let mut out: Vec<char> = Vec::new();
    for c in it: s.chars()
        invariant
            out@ == it.seq().take(it.index() as int),
            it.seq() == s@,
    {
        out.push(c);
    }
    out
}

/// The string made of the characters `chars[from..to]`.
pub fn text_of(chars: &[char], from: usize, to: usize) -> (r: String)
    requires
        from <= to <= chars@.len(),
    ensures
        r@ == chars@.subrange(from as int, to as int),
{
    let mut out = String::new();
    let mut i: usize = from;
    while i < to
        invariant
            from <= i <= to <= chars@.len(),
            out@ == chars@.subrange(from as int, i as int),
        decreases to - i,
    {
        out.push(chars[i]);
        i += 1;
    }
    out
}

/// The first `max` characters, or all of them when there are fewer.
pub open spec fn prefix_of(s: Seq<char>, max: nat) -> Seq<char> {
    if s.len() <= max {
        s
    } else {
        s.take(max as int)
    }
}

/// The first `max` characters of a text.
pub fn take_chars(s: &str, max: usize) -> (r: String)
    ensures
        r@ == prefix_of(s@, max as nat),
{
    let chars = chars_of(s);
    if chars.len() <= max {
        s.to_owned()
    } else {
        text_of(chars.as_slice(), 0, max)
    }
}

// Trimming.

/// The text without its leading whitespace.
pub open spec fn trim_start(s: Seq<char>) -> Seq<char>
    decreases s.len(),
{
    if s.len() > 0 && is_white(s[0]) {
        trim_start(s.skip(1))
    } else {
        s
    }
}

/// The text without its trailing whitespace.
pub open spec fn trim_end(s: Seq<char>) -> Seq<char>
    decreases s.len(),
{
    if s.len() > 0 && is_white(s.last()) {
        trim_end(s.drop_last())
    } else {
        s
    }
}

/// The text without leading and trailing whitespace.
pub open spec fn trim(s: Seq<char>) -> Seq<char> {
    trim_end(trim_start(s))
}

/// The number of leading whitespace characters of `chars[from..to]`, added to `from`.
fn skip_white(chars: &[char], from: usize, to: usize) -> (r: usize)
    requires
        from <= to <= chars@.len(),
    ensures
        from <= r <= to,
        trim_start(chars@.subrange(from as int, to as int)) == chars@.subrange(r as int, to as int),
        r < to ==> !is_white(chars@[r as int]),
{
    let mut i: usize = from;
    while i < to && is_whitespace(chars[i])
        invariant
            from <= i <= to <= chars@.len(),
            trim_start(chars@.subrange(from as int, to as int)) == trim_start(
                chars@.subrange(i as int, to as int),
            ),
        decreases to - i,
    {
        proof {
            assert(chars@.subrange(i as int, to as int).skip(1) =~= chars@.subrange(
                i + 1,
                to as int,
            ));
        }
        i += 1;
    }
    i
}

/// The end of `chars[from..to]` once its trailing whitespace is gone.
fn drop_white(chars: &[char], from: usize, to: usize) -> (r: usize)
    requires
        from <= to <= chars@.len(),
    ensures
        from <= r <= to,
        trim_end(chars@.subrange(from as int, to as int)) == chars@.subrange(from as int, r as int),
{
    let mut i: usize = to;
    while from < i && is_whitespace(chars[i - 1])
        invariant
            from <= i <= to <= chars@.len(),
            trim_end(chars@.subrange(from as int, to as int)) == trim_end(
                chars@.subrange(from as int, i as int),
            ),
        decreases i,
    {
        proof {
            assert(chars@.subrange(from as int, i as int).drop_last() =~= chars@.subrange(
                from as int,
                i - 1,
            ));
        }
        i -= 1;
    }
    i
}

/// `s` without leading whitespace.
pub fn trimmed_start(s: &str) -> (r: String)
    ensures
        r@ == trim_start(s@),
{
    let chars = chars_of(s);
    let from = skip_white(chars.as_slice(), 0, chars.len());
    proof {
        assert(s@.subrange(0, s@.len() as int) =~= s@);
    }
    text_of(chars.as_slice(), from, chars.len())
}

/// `s` without trailing whitespace.
pub fn trimmed_end(s: &str) -> (r: String)
    ensures
        r@ == trim_end(s@),
{
    let chars = chars_of(s);
    let to = drop_white(chars.as_slice(), 0, chars.len());
    proof {
        assert(s@.subrange(0, s@.len() as int) =~= s@);
    }
    text_of(chars.as_slice(), 0, to)
}

/// `s` without leading and trailing whitespace.
pub fn trimmed(s: &str) -> (r: String)
    ensures
        r@ == trim(s@),
{
    let chars = chars_of(s);
    let from = skip_white(chars.as_slice(), 0, chars.len());
    let to = drop_white(chars.as_slice(), from, chars.len());
    proof {
        assert(s@.subrange(0, s@.len() as int) =~= s@);
    }
    text_of(chars.as_slice(), from, to)
}

/// Whether nothing but whitespace stands in `s`.
pub fn is_blank(s: &str) -> (r: bool)
    ensures
        r == (trim(s@).len() == 0),
{
    trimmed(s).as_str().is_empty()
}

/// A text that neither starts nor ends with whitespace is its own trimmed form.
pub proof fn lemma_trim_fixed(s: Seq<char>)
    requires
        s.len() > 0 ==> !is_white(s[0]) && !is_white(s.last()),
    ensures
        trim(s) == s,
        trim_start(s) == s,
        trim_end(s) == s,
{
}

/// What trimming leaves neither starts nor ends with whitespace.
pub proof fn lemma_trim_ends(s: Seq<char>)
    ensures
        trim(s).len() > 0 ==> !is_white(trim(s)[0]) && !is_white(trim(s).last()),
        trim(s).len() <= s.len(),
{
    lemma_trim_start_head(s);
    lemma_trim_end_last(trim_start(s));
}

/// Trimming twice is trimming once.
pub proof fn lemma_trim_idempotent(s: Seq<char>)
    ensures
        trim(trim(s)) == trim(s),
{
    lemma_trim_ends(s);
    lemma_trim_fixed(trim(s));
}

proof fn lemma_trim_start_head(s: Seq<char>)
    ensures
        trim_start(s).len() > 0 ==> !is_white(trim_start(s)[0]),
        trim_start(s).len() <= s.len(),
    decreases s.len(),
{
    if s.len() > 0 && is_white(s[0]) {
        lemma_trim_start_head(s.skip(1));
    }
}

proof fn lemma_trim_end_last(s: Seq<char>)
    ensures
        trim_end(s).len() > 0 ==> !is_white(trim_end(s).last()) && s.len() > 0 && trim_end(s)[0]
            == s[0],
        trim_end(s).len() <= s.len(),
    decreases s.len(),
{
    if s.len() > 0 && is_white(s.last()) {
        lemma_trim_end_last(s.drop_last());
    }
}

// Words and joining.

/// The number of characters before the first whitespace.
pub open spec fn word_len(s: Seq<char>) -> nat
    decreases s.len(),
{
    if s.len() == 0 || is_white(s[0]) {
        0
    } else {
        1 + word_len(s.skip(1))
    }
}

/// The maximal runs of non-whitespace characters.
pub open spec fn words(s: Seq<char>) -> Seq<Seq<char>>
    decreases s.len(),
    when true
    via words_decreases
{
    let rest = trim_start(s);
    if rest.len() == 0 {
        Seq::empty()
    } else {
        let n = word_len(rest) as int;
        seq![rest.take(n)] + words(rest.skip(n))
    }
}

#[via_fn]
proof fn words_decreases(s: Seq<char>) {
    lemma_trim_start_head(s);
    lemma_word_len(trim_start(s));
}

proof fn lemma_word_len(s: Seq<char>)
    ensures
        word_len(s) <= s.len(),
        s.len() > 0 && !is_white(s[0]) ==> word_len(s) > 0,
        word_len(s) < s.len() ==> is_white(s[word_len(s) as int]),
        forall|i: int| 0 <= i < word_len(s) ==> !is_white(#[trigger] s[i]),
    decreases s.len(),
{
    if s.len() > 0 && !is_white(s[0]) {
        lemma_word_len(s.skip(1));
        assert forall|i: int| 0 <= i < word_len(s) implies !is_white(#[trigger] s[i]) by {
            if i > 0 {
                assert(s[i] == s.skip(1)[i - 1]);
            }
        }
    }
}

/// A text that starts with `n` characters of a word, and then ends or goes on with whitespace, has
/// them as its first word.
pub proof fn lemma_first_word(s: Seq<char>, n: int)
    requires
        0 < n <= s.len(),
        forall|i: int| 0 <= i < n ==> !is_white(#[trigger] s[i]),
        n < s.len() ==> is_white(s[n]),
    ensures
        words(s).len() > 0,
        words(s)[0] == s.take(n),
{
    assert(!is_white(s[0]));
    lemma_word_len(s);
    let m = word_len(s) as int;
    assert(m == n) by {
        if m < n {
            assert(!is_white(s[m]));
        }
        if n < m {
            assert(!is_white(s[n]));
        }
    }
}

/// The words of `s`, in order.
pub fn split_words(s: &str) -> (r: Vec<String>)
    ensures
        views(r@) == words(s@),
{
    let chars = chars_of(s);
    let n = chars.len();
    let mut out: Vec<String> = Vec::new();
    let mut i: usize = 0;
    proof {
        assert(s@.subrange(0, n as int) =~= s@);
        assert(views(out@) + words(s@) =~= words(s@));
    }
    while i < n
        invariant
            n == chars@.len(),
            i <= n,
            chars@ == s@,
            views(out@) + words(chars@.subrange(i as int, n as int)) == words(s@),
        decreases n - i,
    {
        let from = skip_white(chars.as_slice(), i, n);
        let ghost rest = chars@.subrange(from as int, n as int);
        if from == n {
            proof {
                assert(rest.len() == 0);
                assert(words(chars@.subrange(n as int, n as int)) =~= Seq::<Seq<char>>::empty());
                assert(words(chars@.subrange(i as int, n as int)) =~= Seq::<Seq<char>>::empty());
            }
            i = n;
        } else {
            let mut to: usize = from;
            proof {
                lemma_word_len(rest);
                assert(chars@[from as int] == rest[0]);
            }
            while to < n && !is_whitespace(chars[to])
                invariant
                    n == chars@.len(),
                    from <= to <= n,
                    rest == chars@.subrange(from as int, n as int),
                    word_len(rest) == (to - from) + word_len(chars@.subrange(to as int, n as int)),
                decreases n - to,
            {
                proof {
                    assert(chars@.subrange(to as int, n as int).skip(1) =~= chars@.subrange(
                        to + 1,
                        n as int,
                    ));
                }
                to += 1;
            }
            let word = text_of(chars.as_slice(), from, to);
            proof {
                assert(word_len(chars@.subrange(to as int, n as int)) == 0);
                assert(rest.take(to - from) =~= word@);
                assert(rest.skip(to - from) =~= chars@.subrange(to as int, n as int));
                let tail = words(chars@.subrange(to as int, n as int));
                assert(words(chars@.subrange(i as int, n as int)) == seq![word@] + tail);
                assert(views(out@.push(word)) + tail =~= views(out@) + (seq![word@] + tail));
            }
            out.push(word);
            i = to;
        }
    }
    proof {
        assert(chars@.subrange(i as int, n as int).len() == 0);
        assert(words(chars@.subrange(i as int, n as int)) =~= Seq::<Seq<char>>::empty());
        assert(views(out@) + Seq::<Seq<char>>::empty() =~= views(out@));
    }
    out
}

/// The parts in order, with `sep` between neighbours.
pub open spec fn join(parts: Seq<Seq<char>>, sep: Seq<char>) -> Seq<char>
    decreases parts.len(),
{
    if parts.len() == 0 {
        Seq::empty()
    } else if parts.len() == 1 {
        parts[0]
    } else {
        join(parts.drop_last(), sep) + sep + parts.last()
    }
}

/// The texts in order, with `sep` between neighbours.
pub fn joined(parts: &[String], sep: &str) -> (r: String)
    ensures
        r@ == join(views(parts@), sep@),
{
    let mut out = String::new();
    let mut i: usize = 0;
    while i < parts.len()
        invariant
            i <= parts@.len(),
            out@ == join(views(parts@).take(i as int), sep@),
        decreases parts.len() - i,
    {
        let ghost before = views(parts@).take(i as int);
        if i > 0 {
            out.append(sep);
        }
        out.append(parts[i].as_str());
        proof {
            let after = views(parts@).take(i + 1);
            assert(after.drop_last() =~= before);
            if i == 0 {
                assert(out@ =~= parts@[0]@);
            }
        }
        i += 1;
    }
    proof {
        assert(views(parts@).take(i as int) =~= views(parts@));
    }
    out
}

/// Joining a list with one more part at its front.
pub proof fn lemma_join_front(head: Seq<char>, tail: Seq<Seq<char>>, sep: Seq<char>)
    requires
        tail.len() > 0,
    ensures
        join(seq![head] + tail, sep) == head + sep + join(tail, sep),
    decreases tail.len(),
{
    let all = seq![head] + tail;
    assert(all.last() == tail.last());
    assert(all.drop_last() =~= seq![head] + tail.drop_last());
    if tail.len() == 1 {
        assert(all.drop_last() =~= seq![head]);
        assert(join(seq![head], sep) == head);
        assert(join(tail, sep) == tail.last());
        assert(join(all, sep) =~= head + sep + join(tail, sep));
    } else {
        lemma_join_front(head, tail.drop_last(), sep);
        let inner = join(tail.drop_last(), sep);
        assert(join(tail, sep) == inner + sep + tail.last());
        assert(join(all, sep) == (head + sep + inner) + sep + tail.last());
        assert((head + sep + inner) + sep + tail.last() =~= head + sep + (inner + sep
            + tail.last()));
    }
}

// Searching.

/// The position of the first `c`, or the length when there is none.
pub open spec fn index_of_char(s: Seq<char>, c: char) -> nat
    decreases s.len(),
{
    if s.len() == 0 || s[0] == c {
        0
    } else {
        1 + index_of_char(s.skip(1), c)
    }
}

/// `index_of_char` is the least position that holds `c`.
pub proof fn lemma_index_of_char(s: Seq<char>, c: char)
    ensures
        index_of_char(s, c) <= s.len(),
        index_of_char(s, c) < s.len() ==> s[index_of_char(s, c) as int] == c,
        forall|i: int| 0 <= i < index_of_char(s, c) ==> #[trigger] s[i] != c,
    decreases s.len(),
{
    if s.len() > 0 && s[0] != c {
        lemma_index_of_char(s.skip(1), c);
        assert forall|i: int| 0 <= i < index_of_char(s, c) implies #[trigger] s[i] != c by {
            if i > 0 {
                assert(s[i] == s.skip(1)[i - 1]);
            }
        }
    }
}

/// A position that holds `c` with none before it is `index_of_char`.
pub proof fn lemma_index_unique(s: Seq<char>, c: char, at: int)
    requires
        0 <= at <= s.len(),
        at < s.len() ==> s[at] == c,
        forall|i: int| 0 <= i < at ==> #[trigger] s[i] != c,
    ensures
        index_of_char(s, c) == at,
{
    lemma_index_of_char(s, c);
}

/// The position of the first `c` in `chars[from..]`, or the length.
pub fn find_char(chars: &[char], from: usize, c: char) -> (r: usize)
    requires
        from <= chars@.len(),
    ensures
        r == from + index_of_char(chars@.skip(from as int), c),
        from <= r <= chars@.len(),
{
    let mut i: usize = from;
    while i < chars.len() && chars[i] != c
        invariant
            from <= i <= chars@.len(),
            forall|k: int| from <= k < i ==> chars@[k] != c,
        decreases chars.len() - i,
    {
        i += 1;
    }
    proof {
        lemma_index_unique(chars@.skip(from as int), c, i - from);
    }
    i
}

/// Whether `part` starts at position `at` of `s`.
pub open spec fn occurs_at(s: Seq<char>, part: Seq<char>, at: int) -> bool {
    0 <= at && at + part.len() <= s.len() && s.subrange(at, at + part.len()) == part
}

/// Whether `part` stands somewhere in `s`.
pub open spec fn has_part(s: Seq<char>, part: Seq<char>) -> bool {
    exists|at: int| occurs_at(s, part, at)
}

/// A text between two others is a part of the whole.
pub proof fn lemma_middle_part(head: Seq<char>, part: Seq<char>, tail: Seq<char>)
    ensures
        has_part(head + part + tail, part),
{
    let whole = head + part + tail;
    assert(whole.subrange(head.len() as int, (head.len() + part.len()) as int) =~= part);
    assert(occurs_at(whole, part, head.len() as int));
}

/// A part of a part is a part.
pub proof fn lemma_part_of_part(s: Seq<char>, part: Seq<char>, inner: Seq<char>)
    requires
        has_part(s, part),
        has_part(part, inner),
    ensures
        has_part(s, inner),
{
    let i = choose|i: int| occurs_at(s, part, i);
    let j = choose|j: int| occurs_at(part, inner, j);
    assert(s.subrange(i + j, i + j + inner.len()) =~= inner) by {
        assert(part =~= s.subrange(i, i + part.len()));
        assert(inner =~= part.subrange(j, j + inner.len()));
    }
    assert(occurs_at(s, inner, i + j));
}

/// A text that is joined with others is a part of the whole.
pub proof fn lemma_joined_part(parts: Seq<Seq<char>>, sep: Seq<char>, i: int)
    requires
        0 <= i < parts.len(),
    ensures
        has_part(join(parts, sep), parts[i]),
    decreases parts.len(),
{
    let whole = join(parts, sep);
    if parts.len() == 1 {
        lemma_middle_part(Seq::empty(), parts[0], Seq::empty());
        assert(Seq::<char>::empty() + parts[0] + Seq::<char>::empty() =~= parts[0]);
    } else {
        let head = join(parts.drop_last(), sep);
        if i == parts.len() - 1 {
            lemma_middle_part(head + sep, parts[i], Seq::empty());
            assert(head + sep + parts[i] + Seq::<char>::empty() =~= whole);
        } else {
            lemma_joined_part(parts.drop_last(), sep, i);
            assert(parts.drop_last()[i] == parts[i]);
            lemma_middle_part(Seq::empty(), head, sep + parts.last());
            assert(Seq::<char>::empty() + head + (sep + parts.last()) =~= whole);
            lemma_part_of_part(whole, head, parts[i]);
        }
    }
}

/// The position of the first occurrence of `part` at or after `from`.
pub open spec fn find_part(s: Seq<char>, part: Seq<char>, from: int) -> Option<int>
    decreases s.len() - from + 1,
{
    if from < 0 || from + part.len() > s.len() {
        None
    } else if occurs_at(s, part, from) {
        Some(from)
    } else {
        find_part(s, part, from + 1)
    }
}

/// `find_part` gives the least occurrence, and gives one exactly when there is one.
pub proof fn lemma_find_part(s: Seq<char>, part: Seq<char>, from: int)
    requires
        0 <= from,
    ensures
        match find_part(s, part, from) {
            Some(at) => from <= at && occurs_at(s, part, at) && forall|k: int|
                from <= k < at ==> !occurs_at(s, part, k),
            None => forall|k: int| from <= k ==> !occurs_at(s, part, k),
        },
    decreases s.len() - from + 1,
{
    if from + part.len() <= s.len() && !occurs_at(s, part, from) {
        lemma_find_part(s, part, from + 1);
    }
}

/// Whether `part` starts at `at`.
fn matches_at(chars: &[char], part: &[char], at: usize) -> (r: bool)
    requires
        at + part@.len() <= chars@.len(),
    ensures
        r == occurs_at(chars@, part@, at as int),
{
    let total: usize = chars.len();
    let mut i: usize = 0;
    while i < part.len()
        invariant
            i <= part@.len(),
            at + part@.len() <= chars@.len(),
            chars@.len() <= usize::MAX,
            forall|k: int| 0 <= k < i ==> chars@[at + k] == part@[k],
        decreases part.len() - i,
    {
        let c = chars[at + i];
        if c != part[i] {
            proof {
                assert(chars@.subrange(at as int, at + part@.len())[i as int] == chars@[at + i]);
            }
            return false;
        }
        i += 1;
    }
    proof {
        assert(chars@.subrange(at as int, at + part@.len()) =~= part@);
    }
    true
}

/// The first occurrence of `part` in `chars[from..]`.
pub fn find_chars(chars: &[char], part: &[char], from: usize) -> (r: Option<usize>)
    requires
        from <= chars@.len(),
    ensures
        match r {
            Some(at) => find_part(chars@, part@, from as int) == Some(at as int) && at + part@.len()
                <= chars@.len(),
            None => find_part(chars@, part@, from as int) is None,
        },
{
    let mut i: usize = from;
    while part.len() <= chars.len() - i
        invariant
            from <= i <= chars@.len(),
            find_part(chars@, part@, from as int) == find_part(chars@, part@, i as int),
        decreases chars.len() - i,
    {
        if matches_at(chars, part, i) {
            return Some(i);
        }
        proof {
            if i == chars@.len() {
                assert(chars@.subrange(i as int, i as int) =~= part@);
            }
        }
        i += 1;
    }
    None
}

/// Whether `part` stands somewhere in `s`.
pub fn contains_text(s: &str, part: &str) -> (r: bool)
    ensures
        r == has_part(s@, part@),
{
    let chars = chars_of(s);
    let wanted = chars_of(part);
    proof {
        lemma_find_part(s@, part@, 0);
    }
    find_chars(chars.as_slice(), wanted.as_slice(), 0).is_some()
}

/// Whether `s` starts with `part`.
pub fn starts_with_text(s: &str, part: &str) -> (r: bool)
    ensures
        r == part@.is_prefix_of(s@),
{
    let chars = chars_of(s);
    let wanted = chars_of(part);
    proof {
        if part@.len() <= s@.len() {
            assert(s@.subrange(0, part@.len() as int) =~= s@.take(part@.len() as int));
        }
    }
    wanted.len() <= chars.len() && matches_at(chars.as_slice(), wanted.as_slice(), 0)
}

/// What follows `part` at the start of `s`.
pub open spec fn after_prefix(s: Seq<char>, part: Seq<char>) -> Option<Seq<char>> {
    if part.is_prefix_of(s) {
        Some(s.skip(part.len() as int))
    } else {
        None
    }
}

/// What precedes `part` at the end of `s`.
pub open spec fn before_suffix(s: Seq<char>, part: Seq<char>) -> Option<Seq<char>> {
    if part.is_suffix_of(s) {
        Some(s.take(s.len() - part.len()))
    } else {
        None
    }
}

/// `s` without the prefix `part`, if it has it.
pub fn without_prefix(s: &str, part: &str) -> (r: Option<String>)
    ensures
        view_option(r) == after_prefix(s@, part@),
{
    if starts_with_text(s, part) {
        let n = part.unicode_len();
        let m = s.unicode_len();
        let rest = s.substring_char(n, m);
        proof {
            assert(s@.subrange(n as int, m as int) =~= s@.skip(n as int));
        }
        Some(rest.to_owned())
    } else {
        None
    }
}

/// `s` without the suffix `part`, if it has it.
pub fn without_suffix(s: &str, part: &str) -> (r: Option<String>)
    ensures
        view_option(r) == before_suffix(s@, part@),
{
    let n = part.unicode_len();
    let m = s.unicode_len();
    if n <= m {
        let tail = s.substring_char(m - n, m);
        let head = s.substring_char(0, m - n);
        proof {
            assert(s@.subrange(m - n, m as int) =~= s@.skip(m - n));
            assert(s@.subrange(0, m - n) =~= s@.take(m - n));
            assert(s@.skip(s@.len() - part@.len()) == s@.subrange(s@.len() - part@.len(), s@.len() as int));
        }
        if same(tail, part) {
            return Some(head.to_owned());
        }
    }
    None
}

/// The texts before and after the first `c`.
pub open spec fn split_at_char(s: Seq<char>, c: char) -> Option<(Seq<char>, Seq<char>)> {
    let at = index_of_char(s, c) as int;
    if at < s.len() {
        Some((s.take(at), s.skip(at + 1)))
    } else {
        None
    }
}

/// Splits at the first `c`.
pub fn split_once_char(s: &str, c: char) -> (r: Option<(String, String)>)
    ensures
        match r {
            Some(pair) => split_at_char(s@, c) == Some((pair.0@, pair.1@)),
            None => split_at_char(s@, c) is None,
        },
{
    let chars = chars_of(s);
    let at = find_char(chars.as_slice(), 0, c);
    proof {
        assert(s@.skip(0) =~= s@);
    }
    if at < chars.len() {
        let head = text_of(chars.as_slice(), 0, at);
        let tail = text_of(chars.as_slice(), at + 1, chars.len());
        proof {
            assert(head@ =~= s@.take(at as int));
            assert(tail@ =~= s@.skip(at + 1));
        }
        Some((head, tail))
    } else {
        None
    }
}

/// The texts before and after the last `c`.
pub open spec fn split_at_last(s: Seq<char>, c: char) -> Option<(Seq<char>, Seq<char>)>
    decreases s.len(),
{
    if s.len() == 0 {
        None
    } else if s.last() == c {
        Some((s.drop_last(), Seq::empty()))
    } else {
        match split_at_last(s.drop_last(), c) {
            Some(parts) => Some((parts.0, parts.1.push(s.last()))),
            None => None,
        }
    }
}

pub proof fn lemma_split_at_last(s: Seq<char>, c: char, at: int)
    requires
        0 <= at < s.len(),
        s[at] == c,
        forall|i: int| at < i < s.len() ==> #[trigger] s[i] != c,
    ensures
        split_at_last(s, c) == Some((s.take(at), s.skip(at + 1))),
    decreases s.len(),
{
    if at == s.len() - 1 {
        assert(s.take(at) =~= s.drop_last());
        assert(s.skip(at + 1) =~= Seq::empty());
    } else {
        assert(s.last() != c);
        let head = s.drop_last();
        assert forall|i: int| at < i < head.len() implies #[trigger] head[i] != c by {
            assert(s[i] != c);
        }
        lemma_split_at_last(head, c, at);
        assert(head.take(at) =~= s.take(at));
        assert(head.skip(at + 1).push(s.last()) =~= s.skip(at + 1));
    }
}

pub proof fn lemma_split_at_last_none(s: Seq<char>, c: char)
    requires
        forall|i: int| 0 <= i < s.len() ==> #[trigger] s[i] != c,
    ensures
        split_at_last(s, c) is None,
    decreases s.len(),
{
    if s.len() > 0 {
        let head = s.drop_last();
        assert forall|i: int| 0 <= i < head.len() implies #[trigger] head[i] != c by {
            assert(s[i] != c);
        }
        lemma_split_at_last_none(head, c);
    }
}

/// Splits at the last `c`.
pub fn rsplit_once_char(s: &str, c: char) -> (r: Option<(String, String)>)
    ensures
        match r {
            Some(pair) => split_at_last(s@, c) == Some((pair.0@, pair.1@)),
            None => split_at_last(s@, c) is None,
        },
{
    let chars = chars_of(s);
    let n = chars.len();
    let mut i: usize = n;
    while i > 0
        invariant
            i <= n,
            n == chars@.len(),
            chars@ == s@,
            forall|k: int| i <= k < n ==> #[trigger] s@[k] != c,
        decreases i,
    {
        if chars[i - 1] == c {
            let head = text_of(chars.as_slice(), 0, i - 1);
            let tail = text_of(chars.as_slice(), i, n);
            proof {
                lemma_split_at_last(s@, c, i - 1);
                assert(head@ =~= s@.take(i - 1));
                assert(tail@ =~= s@.skip(i as int));
            }
            return Some((head, tail));
        }
        i -= 1;
    }
    proof {
        lemma_split_at_last_none(s@, c);
    }
    None
}

/// The pieces between the occurrences of `c`.
pub open spec fn split_on(s: Seq<char>, c: char) -> Seq<Seq<char>>
    decreases s.len(),
    when true
    via split_on_decreases
{
    let at = index_of_char(s, c) as int;
    if at < s.len() {
        seq![s.take(at)] + split_on(s.skip(at + 1), c)
    } else {
        seq![s]
    }
}

#[via_fn]
proof fn split_on_decreases(s: Seq<char>, c: char) {
    lemma_index_of_char(s, c);
}

/// Splits at every `c`.
pub fn split_chars(s: &str, c: char) -> (r: Vec<String>)
    ensures
        views(r@) == split_on(s@, c),
{
    let chars = chars_of(s);
    let mut out: Vec<String> = Vec::new();
    let mut i: usize = 0;
    proof {
        assert(s@.skip(0) =~= s@);
        assert(views(out@) + split_on(s@, c) =~= split_on(s@, c));
    }
    loop
        invariant
            i <= chars@.len(),
            chars@ == s@,
            views(out@) + split_on(s@.skip(i as int), c) == split_on(s@, c),
        decreases chars.len() - i,
    {
        let at = find_char(chars.as_slice(), i, c);
        let piece = text_of(chars.as_slice(), i, at);
        let ghost rest = s@.skip(i as int);
        proof {
            assert(piece@ =~= rest.take(at - i));
        }
        if at == chars.len() {
            proof {
                assert(rest.take(at - i) =~= rest);
                assert(views(out@.push(piece)) =~= views(out@) + seq![piece@]);
            }
            out.push(piece);
            return out;
        }
        proof {
            assert(rest.skip(at - i + 1) =~= s@.skip(at + 1));
            let tail = split_on(s@.skip(at + 1), c);
            assert(views(out@.push(piece)) + tail =~= views(out@) + (seq![piece@] + tail));
        }
        out.push(piece);
        i = at + 1;
    }
}

/// A line without the carriage return before its line feed.
pub open spec fn without_return(s: Seq<char>) -> Seq<char> {
    if s.len() > 0 && s.last() == '\r' {
        s.drop_last()
    } else {
        s
    }
}

/// The lines of a text; the last line feed ends a line and starts none.
pub open spec fn lines(s: Seq<char>) -> Seq<Seq<char>>
    decreases s.len(),
    when true
    via lines_decreases
{
    let at = index_of_char(s, '\n') as int;
    if s.len() == 0 {
        Seq::empty()
    } else if at < s.len() {
        seq![without_return(s.take(at))] + lines(s.skip(at + 1))
    } else {
        seq![s]
    }
}

#[via_fn]
proof fn lines_decreases(s: Seq<char>) {
    lemma_index_of_char(s, '\n');
}

/// Splits a text into lines.
pub fn split_lines(s: &str) -> (r: Vec<String>)
    ensures
        views(r@) == lines(s@),
{
    let chars = chars_of(s);
    let mut out: Vec<String> = Vec::new();
    let mut i: usize = 0;
    proof {
        assert(s@.skip(0) =~= s@);
        assert(views(out@) + lines(s@) =~= lines(s@));
    }
    while i < chars.len()
        invariant
            i <= chars@.len(),
            chars@ == s@,
            views(out@) + lines(s@.skip(i as int)) == lines(s@),
        decreases chars.len() - i,
    {
        let at = find_char(chars.as_slice(), i, '\n');
        let ghost rest = s@.skip(i as int);
        if at == chars.len() {
            let line = text_of(chars.as_slice(), i, at);
            proof {
                assert(line@ =~= rest);
                assert(views(out@.push(line)) =~= views(out@) + seq![line@]);
                assert(s@.skip(at as int).len() == 0);
                assert(lines(s@.skip(at as int)) =~= Seq::<Seq<char>>::empty());
                assert(views(out@.push(line)) + Seq::<Seq<char>>::empty() =~= views(
                    out@.push(line),
                ));
            }
            out.push(line);
            i = at;
        } else {
            let end: usize = if at > i && chars[at - 1] == '\r' {
                at - 1
            } else {
                at
            };
            let line = text_of(chars.as_slice(), i, end);
            proof {
                let whole = rest.take(at - i);
                assert(whole =~= s@.subrange(i as int, at as int));
                assert(line@ =~= without_return(whole));
                assert(rest.skip(at - i + 1) =~= s@.skip(at + 1));
                let tail = lines(s@.skip(at + 1));
                assert(views(out@.push(line)) + tail =~= views(out@) + (seq![line@] + tail));
            }
            out.push(line);
            i = at + 1;
        }
    }
    proof {
        assert(s@.skip(i as int).len() == 0);
        assert(lines(s@.skip(i as int)) =~= Seq::<Seq<char>>::empty());
        assert(views(out@) + Seq::<Seq<char>>::empty() =~= views(out@));
    }
    out
}

/// A text that stands on one line of its own.
pub open spec fn is_line(s: Seq<char>) -> bool {
    s.len() > 0 && s.last() != '\r' && forall|i: int| 0 <= i < s.len() ==> #[trigger] s[i] != '\n'
}

/// Lines joined with line feeds are read back as those lines.
pub proof fn lemma_lines_of_join(parts: Seq<Seq<char>>)
    requires
        parts.len() > 0,
        forall|i: int| 0 <= i < parts.len() ==> is_line(#[trigger] parts[i]),
    ensures
        lines(join(parts, "\n"@)) == parts,
        join(parts, "\n"@).len() > 0,
    decreases parts.len(),
{
    reveal_strlit("\n");
    let head = parts[0];
    assert(is_line(head));
    if parts.len() == 1 {
        lemma_index_unique(head, '\n', head.len() as int);
        assert(lines(head) =~= seq![head]);
        assert(parts =~= seq![head]);
    } else {
        let tail = parts.skip(1);
        assert forall|i: int| 0 <= i < tail.len() implies is_line(#[trigger] tail[i]) by {
            assert(tail[i] == parts[i + 1]);
        }
        lemma_lines_of_join(tail);
        lemma_join_front(head, tail, "\n"@);
        assert(seq![head] + tail =~= parts);
        let whole = join(parts, "\n"@);
        let rest = join(tail, "\n"@);
        assert(whole == head + "\n"@ + rest);
        assert(whole[head.len() as int] == '\n');
        assert forall|i: int| 0 <= i < head.len() implies #[trigger] whole[i] != '\n' by {
            assert(whole[i] == head[i]);
        }
        lemma_index_unique(whole, '\n', head.len() as int);
        assert(whole.take(head.len() as int) =~= head);
        assert(whole.skip(head.len() as int + 1) =~= rest);
        assert(without_return(head) == head);
        assert(lines(whole) == seq![head] + lines(rest));
    }
}

// Parts.

proof fn lemma_find_part_skip(s: Seq<char>, part: Seq<char>, from: int, k: int)
    requires
        0 <= from <= s.len(),
        0 <= k,
    ensures
        find_part(s, part, from + k) == match find_part(s.skip(from), part, k) {
            Some(at) => Some(from + at),
            None => None,
        },
    decreases s.len() - from - k + 1,
{
    let rest = s.skip(from);
    if from + k + part.len() <= s.len() {
        assert(s.subrange(from + k, from + k + part.len()) =~= rest.subrange(k, k + part.len()));
        if !occurs_at(s, part, from + k) {
            lemma_find_part_skip(s, part, from, k + 1);
        }
    }
}

/// The position of the first occurrence of a part, if there is one.
pub open spec fn part_at(s: Seq<char>, part: Seq<char>) -> Option<int> {
    match find_part(s, part, 0) {
        Some(at) if 0 <= at <= s.len() - part.len() => Some(at),
        _ => None,
    }
}

fn find_next(chars: &[char], part: &[char], from: usize) -> (r: Option<usize>)
    requires
        from <= chars@.len(),
    ensures
        match r {
            Some(at) => from <= at <= chars@.len() - part@.len() && part_at(
                chars@.skip(from as int),
                part@,
            ) == Some(at - from),
            None => part_at(chars@.skip(from as int), part@) is None,
        },
{
    proof {
        lemma_find_part_skip(chars@, part@, from as int, 0);
        lemma_find_part(chars@.skip(from as int), part@, 0);
    }
    find_chars(chars, part, from)
}

/// The text before the first occurrence of a part and the text behind it, if there is one.
pub open spec fn split_at_part(s: Seq<char>, part: Seq<char>) -> Option<(Seq<char>, Seq<char>)> {
    match part_at(s, part) {
        Some(at) => Some((s.take(at), s.skip(at + part.len()))),
        None => None,
    }
}

/// Splits a text at the first occurrence of a part.
pub fn split_once_text(s: &str, part: &str) -> (r: Option<(String, String)>)
    ensures
        match r {
            Some(parts) => split_at_part(s@, part@) == Some((parts.0@, parts.1@)),
            None => split_at_part(s@, part@) is None,
        },
{
    let chars = chars_of(s);
    let part_chars = chars_of(part);
    let total: usize = chars.len();
    proof {
        assert(s@.skip(0) =~= s@);
    }
    match find_next(chars.as_slice(), part_chars.as_slice(), 0) {
        Some(at) => {
            let head = text_of(chars.as_slice(), 0, at);
            let tail = text_of(chars.as_slice(), at + part_chars.len(), total);
            proof {
                assert(head@ =~= s@.take(at as int));
                assert(tail@ =~= s@.skip(at + part@.len()));
            }
            Some((head, tail))
        },
        None => None,
    }
}

/// The text with every occurrence of a part replaced, from left to right.
pub open spec fn replaced(s: Seq<char>, part: Seq<char>, with: Seq<char>) -> Seq<char>
    decreases s.len(),
{
    match part_at(s, part) {
        Some(at) if part.len() > 0 => s.take(at) + with + replaced(
            s.skip(at + part.len()),
            part,
            with,
        ),
        _ => s,
    }
}

/// Replaces every occurrence of a part, from left to right.
pub fn replace_text(s: &str, part: &str, with: &str) -> (r: String)
    requires
        part@.len() > 0,
    ensures
        r@ == replaced(s@, part@, with@),
{
    let chars = chars_of(s);
    let part_chars = chars_of(part);
    let total: usize = chars.len();
    let mut out = String::new();
    let mut from: usize = 0;
    proof {
        assert(s@.skip(0) =~= s@);
        assert(out@ + replaced(s@, part@, with@) =~= replaced(s@, part@, with@));
    }
    loop
        invariant
            from <= chars@.len(),
            total == chars@.len(),
            chars@ == s@,
            part_chars@ == part@,
            part@.len() > 0,
            out@ + replaced(s@.skip(from as int), part@, with@) == replaced(s@, part@, with@),
        decreases total - from,
    {
        let ghost rest = s@.skip(from as int);
        match find_next(chars.as_slice(), part_chars.as_slice(), from) {
            Some(at) => {
                let piece = text_of(chars.as_slice(), from, at);
                proof {
                    assert(piece@ =~= rest.take(at - from));
                    assert(rest.skip(at - from + part@.len()) =~= s@.skip(at + part@.len()));
                    assert(out@ + (piece@ + with@ + replaced(s@.skip(at + part@.len()), part@, with@))
                        =~= out@ + piece@ + with@ + replaced(
                        s@.skip(at + part@.len()),
                        part@,
                        with@,
                    ));
                }
                out = out.concat(piece.as_str()).concat(with);
                from = at + part_chars.len();
            },
            None => {
                let piece = text_of(chars.as_slice(), from, total);
                proof {
                    assert(piece@ =~= rest);
                }
                out = out.concat(piece.as_str());
                return out;
            },
        }
    }
}

/// The texts between the occurrences of a part.
pub open spec fn split_parts(s: Seq<char>, part: Seq<char>) -> Seq<Seq<char>>
    decreases s.len(),
{
    match part_at(s, part) {
        Some(at) if part.len() > 0 => seq![s.take(at)] + split_parts(s.skip(at + part.len()), part),
        _ => seq![s],
    }
}

/// Splits a text at every occurrence of a part.
pub fn split_text(s: &str, part: &str) -> (r: Vec<String>)
    requires
        part@.len() > 0,
    ensures
        views(r@) == split_parts(s@, part@),
{
    let chars = chars_of(s);
    let part_chars = chars_of(part);
    let total: usize = chars.len();
    let mut out: Vec<String> = Vec::new();
    let mut from: usize = 0;
    proof {
        assert(s@.skip(0) =~= s@);
        assert(views(out@) + split_parts(s@, part@) =~= split_parts(s@, part@));
    }
    loop
        invariant
            from <= chars@.len(),
            total == chars@.len(),
            chars@ == s@,
            part_chars@ == part@,
            part@.len() > 0,
            views(out@) + split_parts(s@.skip(from as int), part@) == split_parts(s@, part@),
        decreases total - from,
    {
        let ghost rest = s@.skip(from as int);
        let ghost before = views(out@);
        match find_next(chars.as_slice(), part_chars.as_slice(), from) {
            Some(at) => {
                let piece = text_of(chars.as_slice(), from, at);
                proof {
                    assert(piece@ =~= rest.take(at - from));
                    assert(rest.skip(at - from + part@.len()) =~= s@.skip(at + part@.len()));
                    let tail = split_parts(s@.skip(at + part@.len()), part@);
                    assert(before + (seq![piece@] + tail) =~= before.push(piece@) + tail);
                    lemma_views_push(out@, piece);
                }
                out.push(piece);
                from = at + part_chars.len();
            },
            None => {
                let piece = text_of(chars.as_slice(), from, total);
                proof {
                    assert(piece@ =~= rest);
                    assert(before + seq![piece@] =~= before.push(piece@));
                    lemma_views_push(out@, piece);
                }
                out.push(piece);
                return out;
            },
        }
    }
}

/// The text without the characters `c` at its end.
pub open spec fn trim_end_char(s: Seq<char>, c: char) -> Seq<char>
    decreases s.len(),
{
    if s.len() > 0 && s.last() == c {
        trim_end_char(s.drop_last(), c)
    } else {
        s
    }
}

/// The text without the characters `c` at its end.
pub fn trimmed_end_char(s: &str, c: char) -> (r: String)
    ensures
        r@ == trim_end_char(s@, c),
{
    let chars = chars_of(s);
    let mut to: usize = chars.len();
    proof {
        assert(s@.take(to as int) =~= s@);
    }
    while to > 0 && chars[to - 1] == c
        invariant
            to <= chars@.len(),
            chars@ == s@,
            trim_end_char(s@, c) == trim_end_char(s@.take(to as int), c),
        decreases to,
    {
        proof {
            assert(s@.take(to as int).drop_last() =~= s@.take(to - 1));
            assert(s@.take(to as int).last() == s@[to - 1]);
        }
        to -= 1;
    }
    proof {
        if to > 0 {
            assert(s@.take(to as int).last() == s@[to - 1]);
        }
        assert(s@.subrange(0, to as int) =~= s@.take(to as int));
    }
    text_of(chars.as_slice(), 0, to)
}

/// Whether a text ends with a character.
pub fn ends_with_char(s: &str, c: char) -> (r: bool)
    ensures
        r == (s@.len() > 0 && s@.last() == c),
{
    let chars = chars_of(s);
    let total: usize = chars.len();
    total > 0 && chars[total - 1] == c
}

/// Whether a text starts with a character.
pub fn starts_with_char(s: &str, c: char) -> (r: bool)
    ensures
        r == (s@.len() > 0 && s@[0] == c),
{
    let chars = chars_of(s);
    chars.len() > 0 && chars[0] == c
}

/// The length of a text in bytes.
pub open spec fn byte_len(s: Seq<char>) -> nat {
    encode_utf8(s).len()
}

/// The length of a text in bytes.
pub fn bytes_in(s: &str) -> (r: usize)
    ensures
        r == byte_len(s@),
{
    s.as_bytes().len()
}

/// What `str::to_lowercase` gives.
pub uninterp spec fn lowercase_text(s: Seq<char>) -> Seq<char>;

/// `str::to_lowercase`: the text in lower case, by the Unicode tables.
#[verifier::external_body]
pub(crate) fn to_lowercase(s: &str) -> (r: String)
    ensures
        r@ == lowercase_text(s@),
{
    s.to_lowercase()
}

/// What stands in a text stands in it still when more follows, and so does what follows.
pub proof fn lemma_grown(head: Seq<char>, more: Seq<char>)
    ensures
        has_part(head + more, more),
        forall|part: Seq<char>| #[trigger] has_part(head, part) ==> has_part(head + more, part),
{
    lemma_middle_part(head, more, Seq::empty());
    assert(head + more + Seq::<char>::empty() =~= head + more);
    assert forall|part: Seq<char>| #[trigger] has_part(head, part) implies has_part(
        head + more,
        part,
    ) by {
        lemma_middle_part(Seq::empty(), head, more);
        assert(Seq::<char>::empty() + head + more =~= head + more);
        lemma_part_of_part(head + more, head, part);
    }
}

/// What stands in a text stands in a longer one; a key and its value behind it stand there too.
pub proof fn lemma_pair_behind(
    head: Seq<char>,
    key: Seq<char>,
    value: Seq<char>,
) -> (whole: Seq<char>)
    ensures
        whole == head + key + value,
        has_part(whole, key + value),
        forall|part: Seq<char>| #[trigger] has_part(head, part) ==> has_part(whole, part),
{
    let whole = head + (key + value);
    assert(whole =~= head + key + value);
    lemma_grown(head, key + value);
    whole
}

/// The parts of a text, with what it was split at between them, make up the text again; no part of a
/// split at a character holds that character.
pub proof fn law_split_parts_join_again(s: Seq<char>, c: char, i: int)
    ensures
        split_on(s, c).len() > 0,
        join(split_on(s, c), seq![c]) == s,
        0 <= i < split_on(s, c).len() ==> !split_on(s, c)[i].contains(c),
    decreases s.len(),
{
    let at = index_of_char(s, c) as int;
    lemma_index_of_char(s, c);
    if at < s.len() {
        let rest = s.skip(at + 1);
        law_split_parts_join_again(rest, c, i - 1);
        lemma_join_front(s.take(at), split_on(rest, c), seq![c]);
        assert(s =~= s.take(at) + seq![c] + rest);
    }
    if i == 0 && split_on(s, c)[0].contains(c) {
        let k = choose|k: int| 0 <= k < split_on(s, c)[0].len() && split_on(s, c)[0][k] == c;
        assert(s[k] == c);
    }
    if 0 < i < split_on(s, c).len() && at < s.len() {
        assert(split_on(s, c)[i] == split_on(s.skip(at + 1), c)[i - 1]);
    }
}

/// Replacing a text is splitting at it and joining with the other; what does not hold it stays.
pub proof fn law_replacing_is_splitting_and_joining(
    s: Seq<char>,
    part: Seq<char>,
    with: Seq<char>,
)
    requires
        part.len() > 0,
    ensures
        split_parts(s, part).len() > 0,
        join(split_parts(s, part), part) == s,
        join(split_parts(s, part), with) == replaced(s, part, with),
        !has_part(s, part) ==> replaced(s, part, with) == s,
    decreases s.len(),
{
    lemma_find_part(s, part, 0);
    match part_at(s, part) {
        Some(at) => {
            let rest = s.skip(at + part.len());
            law_replacing_is_splitting_and_joining(rest, part, with);
            lemma_join_front(s.take(at), split_parts(rest, part), part);
            lemma_join_front(s.take(at), split_parts(rest, part), with);
            assert(s.subrange(at, at + part.len()) =~= part);
            assert(s =~= s.take(at) + part + rest);
            assert(has_part(s, part));
        },
        None => {},
    }
}

/// Trimming takes away white space only, and all of it at both ends.
pub proof fn law_trimming_takes_white_space(s: Seq<char>)
    ensures
        has_part(s, trim(s)),
        trim(s).len() > 0 ==> !is_white(trim(s)[0]) && !is_white(trim(s).last()),
        trim(s).len() == 0 <==> forall|i: int| 0 <= i < s.len() ==> is_white(#[trigger] s[i]),
{
    lemma_trim_ends(s);
    lemma_trim_start_rest(s);
    lemma_trim_end_head(trim_start(s));
    let rest = trim_start(s);
    let skipped = (s.len() - rest.len()) as int;
    assert(s.subrange(skipped, skipped + trim(s).len()) =~= trim(s));
    assert(occurs_at(s, trim(s), skipped));
    if trim(s).len() == 0 {
        assert forall|i: int| 0 <= i < s.len() implies is_white(#[trigger] s[i]) by {
            if i >= skipped {
                assert(rest[i - skipped] == s[i]);
            }
        }
    } else {
        assert(trim(s)[0] == s[skipped]);
    }
}

/// What trimming at the start leaves is the end of the text, behind white space.
proof fn lemma_trim_start_rest(s: Seq<char>)
    ensures
        trim_start(s).len() <= s.len(),
        trim_start(s) == s.skip(s.len() - trim_start(s).len()),
        forall|i: int|
            0 <= i < s.len() - trim_start(s).len() ==> is_white(#[trigger] s[i]),
    decreases s.len(),
{
    if s.len() > 0 && is_white(s[0]) {
        let rest = s.skip(1);
        lemma_trim_start_rest(rest);
        assert(trim_start(s) =~= s.skip(s.len() - trim_start(s).len()));
        assert forall|i: int| 0 <= i < s.len() - trim_start(s).len() implies is_white(
            #[trigger] s[i],
        ) by {
            if i > 0 {
                assert(s[i] == rest[i - 1]);
            }
        }
    } else {
        assert(s.skip(0) =~= s);
    }
}

/// What trimming at the end leaves is the start of the text, before white space.
proof fn lemma_trim_end_head(s: Seq<char>)
    ensures
        trim_end(s).len() <= s.len(),
        trim_end(s) == s.take(trim_end(s).len() as int),
        forall|i: int| trim_end(s).len() <= i < s.len() ==> is_white(#[trigger] s[i]),
    decreases s.len(),
{
    if s.len() > 0 && is_white(s.last()) {
        lemma_trim_end_head(s.drop_last());
        assert(trim_end(s) =~= s.take(trim_end(s).len() as int));
        assert forall|i: int| trim_end(s).len() <= i < s.len() implies is_white(
            #[trigger] s[i],
        ) by {
            if i < s.len() - 1 {
                assert(s[i] == s.drop_last()[i]);
            }
        }
    } else {
        assert(s.take(s.len() as int) =~= s);
    }
}

/// Words hold no white space and are never empty; words with a space between them are read back.
pub proof fn law_words_are_read_back(parts: Seq<Seq<char>>)
    requires
        forall|i: int| 0 <= i < parts.len() ==> is_plain_word(#[trigger] parts[i]),
    ensures
        words(join(parts, seq![' '])) == parts,
    decreases parts.len(),
{
    if parts.len() > 0 {
        let first = parts[0];
        let tail = parts.skip(1);
        let s = join(parts, seq![' ']);
        assert(parts =~= seq![first] + tail);
        assert(is_plain_word(first));
        assert forall|i: int| 0 <= i < tail.len() implies is_plain_word(#[trigger] tail[i]) by {
            assert(tail[i] == parts[i + 1]);
        }
        law_words_are_read_back(tail);
        if tail.len() == 0 {
            assert(s == first);
            lemma_word_len(s);
            assert(word_len(s) == s.len());
            assert(s.take(s.len() as int) =~= s);
            assert(s.skip(s.len() as int) =~= Seq::empty());
            assert(words(s) =~= parts);
        } else {
            lemma_join_front(first, tail, seq![' ']);
            let rest = join(tail, seq![' ']);
            assert(s =~= first + seq![' '] + rest);
            let n = first.len() as int;
            lemma_word_len(s);
            assert(s[0] == first[0]);
            assert(word_len(s) == n) by {
                if word_len(s) < n {
                    assert(s[word_len(s) as int] == first[word_len(s) as int]);
                }
                assert(s[n] == ' ');
            }
            assert(s.take(n) =~= first);
            assert(s.skip(n) =~= seq![' '] + rest);
            assert((seq![' '] + rest).skip(1) =~= rest);
            assert(trim_start(seq![' '] + rest) == trim_start(rest));
            assert(words(seq![' '] + rest) == words(rest));
            assert(words(s) =~= seq![first] + words(rest));
        }
    } else {
        assert(words(Seq::<char>::empty()) =~= Seq::empty());
    }
}

/// Whether a text is one word.
pub open spec fn is_plain_word(s: Seq<char>) -> bool {
    s.len() > 0 && forall|i: int| 0 <= i < s.len() ==> !is_white(#[trigger] s[i])
}

/// A text is cut to at most the allowed length, and only where it is longer.
pub proof fn law_cut_text_is_a_start(s: Seq<char>, max: nat)
    ensures
        prefix_of(s, max).is_prefix_of(s),
        prefix_of(s, max).len() <= max,
        s.len() <= max ==> prefix_of(s, max) == s,
        s.len() > max ==> prefix_of(s, max).len() == max,
{
}

} // verus!
