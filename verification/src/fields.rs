//! JSON texts taken apart as they stand: where their outermost parts begin and end, and the places
//! in them that a message names.

use vstd::prelude::*;
use vstd::utf8::encode_utf8;

use crate::json::{json_node, read_node, JsonNode, NodeModel};
use crate::numbers::{decimal, size_text};
use crate::text::{
    byte_len, bytes_in, chars_of, lemma_views_push, same, split_chars, split_on, text_of, trim,
    trimmed, view_option, views,
};

verus! {

broadcast use lemma_views_push;

// Places.

/// The place behind a text, by its lines and the bytes of its last line.
pub open spec fn place(text: Seq<char>) -> Seq<char> {
    let lines = split_on(text, '\n');
    " at line "@ + decimal(lines.len()) + " column "@ + decimal(byte_len(lines.last()))
}

/// The place behind a text, by its lines and the bytes of its last line.
pub fn place_behind(text: &str) -> (r: String)
    ensures
        r@ == place(text@),
{
    let lines = split_chars(text, '\n');
    proof {
        assert(split_on(text@, '\n').len() > 0);
    }
    let last = lines.len() - 1;
    " at line ".to_owned().concat(size_text(lines.len()).as_str()).concat(" column ").concat(
        size_text(bytes_in(lines[last].as_str())).as_str(),
    )
}

/// Whitespace with the lines and columns of a text.
pub open spec fn blanked(text: Seq<char>) -> Seq<char> {
    Seq::new(
        byte_len(text),
        |i: int|
            if encode_utf8(text)[i] == 10 {
                '\n'
            } else {
                ' '
            },
    )
}

/// Whitespace with the lines and columns of a text.
pub fn blank(text: &str) -> (r: String)
    ensures
        r@ == blanked(text@),
{
    let bytes = text.as_bytes();
    let ghost all = blanked(text@);
    let mut out = String::new();
    let mut i: usize = 0;
    while i < bytes.len()
        invariant
            i <= bytes@.len(),
            bytes@ == encode_utf8(text@),
            all == blanked(text@),
            out@ == all.take(i as int),
        decreases bytes.len() - i,
    {
        let c = if bytes[i] == 10 {
            '\n'
        } else {
            ' '
        };
        proof {
            assert(all.take(i as int).push(c) =~= all.take(i + 1));
        }
        out.push(c);
        i += 1;
    }
    proof {
        assert(all.take(i as int) =~= all);
    }
    out
}

// Whitespace and strings.

/// The whitespace of JSON.
pub open spec fn is_json_space(c: char) -> bool {
    c == ' ' || c == '\n' || c == '\t' || c == '\r'
}

/// The number of characters of whitespace with which a text begins.
pub open spec fn spaces(text: Seq<char>) -> nat
    decreases text.len(),
{
    if text.len() > 0 && is_json_space(text[0]) {
        1 + spaces(text.skip(1))
    } else {
        0
    }
}

/// Where the string ends whose characters go on at `i`.
pub open spec fn string_end(text: Seq<char>, i: int, escaped: bool) -> Option<int>
    decreases text.len() - i,
{
    if i >= text.len() {
        None
    } else if escaped {
        string_end(text, i + 1, false)
    } else if text[i] == '\\' {
        string_end(text, i + 1, true)
    } else if text[i] == '"' {
        Some(i + 1)
    } else {
        string_end(text, i + 1, false)
    }
}

/// Where the string ends with which a text goes on at `from`, behind whitespace.
pub open spec fn leading_string(text: Seq<char>, from: int) -> Option<int> {
    let at = from + spaces(text.skip(from));
    if at < text.len() && text[at] == '"' {
        string_end(text, at + 1, false)
    } else {
        None
    }
}

proof fn lemma_spaces(text: Seq<char>, n: int)
    requires
        0 <= n <= text.len(),
        forall|i: int| 0 <= i < n ==> is_json_space(#[trigger] text[i]),
        n < text.len() ==> !is_json_space(text[n]),
    ensures
        spaces(text) == n,
    decreases text.len(),
{
    if n > 0 {
        assert(is_json_space(text[0]));
        let rest = text.skip(1);
        assert forall|i: int| 0 <= i < n - 1 implies is_json_space(#[trigger] rest[i]) by {
            assert(rest[i] == text[i + 1]);
        }
        lemma_spaces(rest, n - 1);
    }
}

/// The whitespace at the beginning of a text lies within it.
pub proof fn lemma_spaces_within(text: Seq<char>)
    ensures
        spaces(text) <= text.len(),
    decreases text.len(),
{
    if text.len() > 0 {
        lemma_spaces_within(text.skip(1));
    }
}

/// A string ends within its text.
pub proof fn lemma_string_end(text: Seq<char>, i: int, escaped: bool)
    ensures
        string_end(text, i, escaped) matches Some(end) ==> i < end <= text.len(),
    decreases text.len() - i,
{
    if i < text.len() {
        lemma_string_end(text, i + 1, false);
        lemma_string_end(text, i + 1, true);
    }
}

// Parts.

/// Where a reading stands: how many brackets are open, and whether it stands in a string.
#[derive(Debug, Clone, Copy, PartialEq, Eq, Structural)]
pub struct Standing {
    pub depth: usize,
    pub quoted: bool,
    pub escaped: bool,
}

/// Where a reading stands, mathematically.
pub ghost struct StandingModel {
    pub depth: nat,
    pub quoted: bool,
    pub escaped: bool,
}

impl View for Standing {
    type V = StandingModel;

    open spec fn view(&self) -> StandingModel {
        StandingModel { depth: self.depth as nat, quoted: self.quoted, escaped: self.escaped }
    }
}

/// A bracket that opens an array or an object.
pub open spec fn opens(c: char) -> bool {
    c == '[' || c == '{'
}

/// A bracket that closes an array or an object.
pub open spec fn closes(c: char) -> bool {
    c == ']' || c == '}'
}

/// Where a reading stands behind one more character.
pub open spec fn stepped(at: StandingModel, c: char) -> StandingModel {
    if at.quoted {
        StandingModel {
            quoted: at.escaped || c != '"',
            escaped: !at.escaped && c == '\\',
            ..at
        }
    } else if c == '"' {
        StandingModel { quoted: true, escaped: false, ..at }
    } else if opens(c) {
        StandingModel { depth: at.depth + 1, ..at }
    } else if closes(c) && at.depth > 0 {
        StandingModel { depth: (at.depth - 1) as nat, ..at }
    } else {
        at
    }
}

/// Where a reading stands behind a text.
pub open spec fn standing(text: Seq<char>) -> StandingModel
    decreases text.len(),
{
    if text.len() == 0 {
        StandingModel { depth: 0, quoted: false, escaped: false }
    } else {
        stepped(standing(text.drop_last()), text.last())
    }
}

/// A character that bounds a part of the outermost array or object: its brackets, and the commas
/// and colons between them.
pub open spec fn bounds(at: StandingModel, c: char) -> bool {
    &&& !at.quoted
    &&& (at.depth == 0 && opens(c)) || (at.depth == 1 && (c == ',' || c == ':' || closes(c)))
}

/// The positions of the characters that bound the outermost parts.
pub open spec fn cuts(text: Seq<char>) -> Seq<int>
    decreases text.len(),
{
    if text.len() == 0 {
        Seq::empty()
    } else if bounds(standing(text.drop_last()), text.last()) {
        cuts(text.drop_last()).push(text.len() - 1)
    } else {
        cuts(text.drop_last())
    }
}

/// The part behind one cut and before the next.
pub open spec fn part(text: Seq<char>, k: int) -> Seq<char> {
    text.subrange(cuts(text)[k] + 1, cuts(text)[k + 1])
}

/// The beginning of a text with `n` characters and one more, as far as there is one.
pub open spec fn one_more(text: Seq<char>, n: nat) -> Seq<char> {
    if n < text.len() {
        text.take(n + 1int)
    } else {
        text
    }
}

/// The number of the commas that stand one behind the other among the cuts, from `k` on.
pub open spec fn comma_run(text: Seq<char>, k: int) -> nat
    decreases cuts(text).len() - k,
{
    if 0 <= k < cuts(text).len() && text[cuts(text)[k]] == ',' {
        1 + comma_run(text, k + 1)
    } else {
        0
    }
}

/// Where an element of an array ends that may be cut short: at the next cut, or with the text.
pub open spec fn element_stop(text: Seq<char>, k: int) -> int {
    if k + 1 < cuts(text).len() {
        cuts(text)[k + 1]
    } else {
        text.len() as int
    }
}

/// The elements of the outermost array as far as they stand; the last one may be cut short.
pub open spec fn open_elements(text: Seq<char>) -> Seq<Seq<char>> {
    Seq::new(
        1 + comma_run(text, 1),
        |k: int| text.subrange(cuts(text)[k] + 1, element_stop(text, k)),
    )
}

/// The commas of a run are among the cuts.
pub proof fn lemma_comma_run(text: Seq<char>, k: int)
    requires
        0 <= k,
    ensures
        k <= cuts(text).len() ==> k + comma_run(text, k) <= cuts(text).len(),
    decreases cuts(text).len() - k,
{
    if k < cuts(text).len() {
        lemma_comma_run(text, k + 1);
    }
}

/// The number of the elements of the outermost array.
pub open spec fn element_count(text: Seq<char>) -> nat {
    if cuts(text).len() < 2 || (cuts(text).len() == 2 && trim(part(text, 0)).len() == 0) {
        0
    } else {
        (cuts(text).len() - 1) as nat
    }
}

/// The elements of the outermost array, as they stand.
pub open spec fn elements(text: Seq<char>) -> Seq<Seq<char>> {
    Seq::new(element_count(text), |k: int| part(text, k))
}

/// The number of the members of the outermost object that are complete: a name and a value.
pub open spec fn member_count(text: Seq<char>) -> nat {
    if cuts(text).len() == 0 {
        0
    } else {
        ((cuts(text).len() - 1) / 2) as nat
    }
}

/// The text of a string, or nothing.
pub open spec fn string_in(text: Seq<char>) -> Option<Seq<char>> {
    match json_node(text) {
        Ok(NodeModel::Text(value)) => Some(value),
        _ => None,
    }
}

/// The members of the outermost object in their order, with repeated names: each name as it reads
/// and each value as it stands.
pub open spec fn members(text: Seq<char>) -> Seq<(Option<Seq<char>>, Seq<char>)> {
    Seq::new(member_count(text), |j: int| (string_in(part(text, 2 * j)), part(text, 2 * j + 1)))
}

/// The view of a list of members.
pub open spec fn members_view(list: Seq<(Option<String>, String)>) -> Seq<
    (Option<Seq<char>>, Seq<char>),
> {
    Seq::new(list.len(), |j: int| (view_option(list[j].0), list[j].1@))
}

/// Whether no name stands twice.
pub open spec fn distinct_names(list: Seq<(Option<Seq<char>>, Seq<char>)>) -> bool {
    forall|i: int, k: int|
        0 <= i < k < list.len() ==> (#[trigger] list[i]).0 != (#[trigger] list[k]).0
}

/// The value of the last member with a name.
pub open spec fn named_value(list: Seq<(Option<Seq<char>>, Seq<char>)>, key: Seq<char>) -> Option<
    Seq<char>,
>
    decreases list.len(),
{
    if list.len() == 0 {
        None
    } else if list.last().0 == Some(key) {
        Some(list.last().1)
    } else {
        named_value(list.drop_last(), key)
    }
}

/// Whether a JSON text is an object that names a member twice.
pub open spec fn repeats_name(text: Seq<char>) -> bool {
    match json_node(text) {
        Ok(NodeModel::Object(_)) => !distinct_names(members(text)),
        _ => false,
    }
}

/// The cuts stand in their order within the text.
pub proof fn lemma_cuts(text: Seq<char>)
    ensures
        forall|k: int| 0 <= k < cuts(text).len() ==> 0 <= #[trigger] cuts(text)[k] < text.len(),
        forall|k: int, m: int|
            0 <= k < m < cuts(text).len() ==> #[trigger] cuts(text)[k] < #[trigger] cuts(text)[m],
        cuts(text).len() <= text.len(),
    decreases text.len(),
{
    if text.len() > 0 {
        lemma_cuts(text.drop_last());
    }
}

/// A JSON text and where its outermost parts are bounded.
pub struct Layout {
    chars: Vec<char>,
    cuts: Vec<usize>,
}

impl View for Layout {
    type V = Seq<char>;

    closed spec fn view(&self) -> Seq<char> {
        self.chars@
    }
}

impl Layout {
    /// The cuts are those of the text.
    pub closed spec fn wf(&self) -> bool {
        &&& self.cuts@.len() == cuts(self.chars@).len()
        &&& forall|k: int|
            0 <= k < self.cuts@.len() ==> #[trigger] self.cuts@[k] == cuts(self.chars@)[k]
    }

    /// Finds where the outermost parts of a text are bounded.
    pub fn of(text: &str) -> (r: Layout)
        ensures
            r.wf(),
            r@ == text@,
    {
        let chars = chars_of(text);
        let mut found: Vec<usize> = Vec::new();
        let mut at = Standing { depth: 0, quoted: false, escaped: false };
        let mut i: usize = 0;
        while i < chars.len()
            invariant
                i <= chars@.len(),
                at.depth <= i,
                at@ == standing(chars@.take(i as int)),
                found@.len() == cuts(chars@.take(i as int)).len(),
                forall|k: int|
                    0 <= k < found@.len() ==> #[trigger] found@[k] == cuts(
                        chars@.take(i as int),
                    )[k],
            decreases chars.len() - i,
        {
            let c = chars[i];
            proof {
                let next = chars@.take(i + 1);
                assert(next.drop_last() =~= chars@.take(i as int));
                assert(next.last() == c);
            }
            if !at.quoted && ((at.depth == 0 && (c == '[' || c == '{')) || (at.depth == 1 && (c
                == ',' || c == ':' || c == ']' || c == '}'))) {
                found.push(i);
            }
            if at.quoted {
                let quoted = at.escaped || c != '"';
                let escaped = !at.escaped && c == '\\';
                at = Standing { depth: at.depth, quoted, escaped };
            } else if c == '"' {
                at = Standing { depth: at.depth, quoted: true, escaped: false };
            } else if c == '[' || c == '{' {
                at = Standing { depth: at.depth + 1, quoted: at.quoted, escaped: at.escaped };
            } else if (c == ']' || c == '}') && at.depth > 0 {
                at = Standing { depth: at.depth - 1, quoted: at.quoted, escaped: at.escaped };
            }
            i += 1;
        }
        proof {
            assert(chars@.take(i as int) =~= chars@);
        }
        Layout { chars, cuts: found }
    }

    /// The number of cuts.
    pub fn cut_count(&self) -> (r: usize)
        requires
            self.wf(),
        ensures
            r == cuts(self@).len(),
    {
        self.cuts.len()
    }

    /// The character at a cut.
    pub fn cut_char(&self, k: usize) -> (r: char)
        requires
            self.wf(),
            k < cuts(self@).len(),
        ensures
            r == self@[cuts(self@)[k as int]],
    {
        proof {
            lemma_cuts(self.chars@);
            assert(self.cuts@[k as int] == cuts(self.chars@)[k as int]);
        }
        self.chars[self.cuts[k]]
    }

    /// What stands before a cut.
    pub fn before_cut(&self, k: usize) -> (r: String)
        requires
            self.wf(),
            k < cuts(self@).len(),
        ensures
            r@ == self@.take(cuts(self@)[k as int]),
    {
        proof {
            lemma_cuts(self.chars@);
            assert(self.cuts@[k as int] == cuts(self.chars@)[k as int]);
            assert(self.chars@.subrange(0, self.cuts@[k as int] as int) =~= self.chars@.take(
                self.cuts@[k as int] as int,
            ));
        }
        text_of(self.chars.as_slice(), 0, self.cuts[k])
    }

    /// What stands before a cut, and the cut itself.
    pub fn through_cut(&self, k: usize) -> (r: String)
        requires
            self.wf(),
            k < cuts(self@).len(),
        ensures
            r@ == self@.take(cuts(self@)[k as int] + 1),
    {
        let n: usize = self.chars.len();
        proof {
            lemma_cuts(self.chars@);
            assert(self.cuts@[k as int] == cuts(self.chars@)[k as int]);
            assert(self.chars@.subrange(0, self.cuts@[k as int] + 1) =~= self.chars@.take(
                self.cuts@[k as int] + 1,
            ));
        }
        text_of(self.chars.as_slice(), 0, self.cuts[k] + 1)
    }

    /// The number of characters.
    pub fn size(&self) -> (r: usize)
        ensures
            r == self@.len(),
    {
        self.chars.len()
    }

    /// The character at a position.
    pub fn char_at(&self, i: usize) -> (r: char)
        requires
            i < self@.len(),
        ensures
            r == self@[i as int],
    {
        self.chars[i]
    }

    /// The characters from one position to another.
    pub fn slice(&self, from: usize, to: usize) -> (r: String)
        requires
            from <= to <= self@.len(),
        ensures
            r@ == self@.subrange(from as int, to as int),
    {
        text_of(self.chars.as_slice(), from, to)
    }

    /// The first characters.
    pub fn first(&self, n: usize) -> (r: String)
        requires
            n <= self@.len(),
        ensures
            r@ == self@.take(n as int),
    {
        proof {
            assert(self.chars@.subrange(0, n as int) =~= self.chars@.take(n as int));
        }
        text_of(self.chars.as_slice(), 0, n)
    }

    /// What follows the first characters.
    pub fn behind(&self, n: usize) -> (r: String)
        requires
            n <= self@.len(),
        ensures
            r@ == self@.skip(n as int),
    {
        proof {
            assert(self.chars@.subrange(n as int, self.chars@.len() as int) =~= self.chars@.skip(
                n as int,
            ));
        }
        text_of(self.chars.as_slice(), n, self.chars.len())
    }

    /// The position of a cut.
    pub fn cut_at(&self, k: usize) -> (r: usize)
        requires
            self.wf(),
            k < cuts(self@).len(),
        ensures
            r == cuts(self@)[k as int],
            r < self@.len(),
    {
        proof {
            lemma_cuts(self.chars@);
            assert(self.cuts@[k as int] == cuts(self.chars@)[k as int]);
        }
        self.cuts[k]
    }

    /// The position behind the whitespace with which the text goes on.
    pub fn skip_spaces(&self, from: usize) -> (r: usize)
        requires
            from <= self@.len(),
        ensures
            r == from + spaces(self@.skip(from as int)),
            r <= self@.len(),
    {
        let ghost rest = self@.skip(from as int);
        let mut i: usize = from;
        while i < self.chars.len() && (self.chars[i] == ' ' || self.chars[i] == '\n'
            || self.chars[i] == '\t' || self.chars[i] == '\r')
            invariant
                from <= i <= self.chars@.len(),
                rest == self@.skip(from as int),
                forall|k: int| 0 <= k < i - from ==> is_json_space(#[trigger] rest[k]),
            decreases self.chars.len() - i,
        {
            proof {
                assert(rest[i - from] == self.chars@[i as int]);
            }
            i += 1;
        }
        proof {
            if i < self.chars@.len() {
                assert(rest[i - from] == self.chars@[i as int]);
            }
            lemma_spaces(rest, i - from);
        }
        i
    }

    /// Where the string ends with which the text goes on, behind whitespace.
    pub fn find_string(&self, from: usize) -> (r: Option<usize>)
        requires
            from <= self@.len(),
        ensures
            match r {
                Some(end) => leading_string(self@, from as int) == Some(end as int) && from < end
                    <= self@.len(),
                None => leading_string(self@, from as int) is None,
            },
    {
        let at = self.skip_spaces(from);
        if at == self.chars.len() || self.chars[at] != '"' {
            return None;
        }
        let mut i: usize = at + 1;
        let mut escaped = false;
        while i < self.chars.len()
            invariant
                from <= at < i <= self.chars@.len(),
                leading_string(self@, from as int) == string_end(self@, i as int, escaped),
            decreases self.chars.len() - i,
        {
            let c = self.chars[i];
            if escaped {
                escaped = false;
            } else if c == '\\' {
                escaped = true;
            } else if c == '"' {
                return Some(i + 1);
            }
            i += 1;
        }
        None
    }

    /// The beginning of the text with `n` characters and one more, as far as there is one.
    pub fn with_one_more(&self, n: usize) -> (r: String)
        ensures
            r@ == one_more(self@, n as nat),
    {
        let total: usize = self.chars.len();
        let to: usize = if n < total {
            n + 1
        } else {
            total
        };
        proof {
            assert(self.chars@.subrange(0, total as int) =~= self.chars@);
            assert(self.chars@.subrange(0, to as int) =~= self.chars@.take(to as int));
        }
        text_of(self.chars.as_slice(), 0, to)
    }

    /// The part behind a cut and before the next.
    pub fn part(&self, k: usize) -> (r: String)
        requires
            self.wf(),
            k + 1 < cuts(self@).len(),
        ensures
            r@ == part(self@, k as int),
    {
        let n: usize = self.chars.len();
        let m: usize = self.cuts.len();
        proof {
            lemma_cuts(self.chars@);
            assert(self.cuts@[k as int] == cuts(self.chars@)[k as int]);
            assert(self.cuts@[k + 1] == cuts(self.chars@)[k + 1]);
        }
        text_of(self.chars.as_slice(), self.cuts[k] + 1, self.cuts[k + 1])
    }

    /// The number of the commas that stand one behind the other among the cuts, from the second on.
    pub fn count_commas(&self) -> (r: usize)
        requires
            self.wf(),
        ensures
            r == comma_run(self@, 1),
            cuts(self@).len() > 0 ==> 1 + r <= cuts(self@).len(),
            cuts(self@).len() <= usize::MAX,
    {
        let total: usize = self.cuts.len();
        proof {
            lemma_comma_run(self@, 1);
        }
        let mut k: usize = 1;
        while k < total && self.cut_char(k) == ','
            invariant
                self.wf(),
                total == cuts(self@).len(),
                1 <= k,
                comma_run(self@, 1) == k - 1 + comma_run(self@, k as int),
            decreases total - k,
        {
            k += 1;
        }
        k - 1
    }

    /// The elements of the outermost array as far as they stand.
    pub fn read_open_elements(&self) -> (r: Vec<String>)
        requires
            self.wf(),
            cuts(self@).len() > 0,
        ensures
            views(r@) == open_elements(self@),
            r@.len() <= cuts(self@).len(),
    {
        let n = self.count_commas();
        let ghost all = open_elements(self@);
        let mut out: Vec<String> = Vec::new();
        let mut k: usize = 0;
        proof {
            assert(views(out@) =~= all.take(0));
        }
        while k <= n
            invariant
                self.wf(),
                k <= n + 1 <= cuts(self@).len() <= usize::MAX,
                n == comma_run(self@, 1),
                all == open_elements(self@),
                views(out@) == all.take(k as int),
            decreases n + 1 - k,
        {
            let stop = self.stop_of_element(k);
            proof {
                lemma_cuts(self@);
            }
            let text = self.slice(self.cut_at(k) + 1, stop);
            proof {
                assert(all.take(k as int).push(text@) =~= all.take(k + 1));
            }
            out.push(text);
            k += 1;
        }
        proof {
            assert(all.take(k as int) =~= all);
        }
        out
    }

    /// Where an element of the outermost array ends that may be cut short.
    pub fn stop_of_element(&self, k: usize) -> (r: usize)
        requires
            self.wf(),
            k < cuts(self@).len(),
        ensures
            r == element_stop(self@, k as int),
            cuts(self@)[k as int] < r <= self@.len(),
    {
        let total: usize = self.cuts.len();
        proof {
            lemma_cuts(self@);
        }
        if k + 1 < total {
            self.cut_at(k + 1)
        } else {
            self.chars.len()
        }
    }

    /// The number of the elements of the outermost array.
    pub fn count_elements(&self) -> (r: usize)
        requires
            self.wf(),
        ensures
            r == element_count(self@),
    {
        let n = self.cuts.len();
        if n < 2 {
            0
        } else if n == 2 && trimmed(self.part(0).as_str()).as_str().is_empty() {
            0
        } else {
            n - 1
        }
    }

    /// The number of the complete members of the outermost object.
    pub fn count_members(&self) -> (r: usize)
        requires
            self.wf(),
        ensures
            r == member_count(self@),
            r > 0 ==> 2 * r < cuts(self@).len(),
            cuts(self@).len() <= usize::MAX,
    {
        let n = self.cuts.len();
        if n == 0 {
            0
        } else {
            (n - 1) / 2
        }
    }
}

/// The elements of the outermost array, as they stand.
pub fn read_elements(layout: &Layout) -> (r: Vec<String>)
    requires
        layout.wf(),
    ensures
        views(r@) == elements(layout@),
{
    let n = layout.count_elements();
    let ghost all = elements(layout@);
    let mut out: Vec<String> = Vec::new();
    let mut k: usize = 0;
    proof {
        assert(views(out@) =~= all.take(0));
    }
    while k < n
        invariant
            layout.wf(),
            k <= n,
            n == element_count(layout@),
            all == elements(layout@),
            views(out@) == all.take(k as int),
        decreases n - k,
    {
        let text = layout.part(k);
        proof {
            assert(all.take(k as int).push(text@) =~= all.take(k + 1));
        }
        out.push(text);
        k += 1;
    }
    proof {
        assert(all.take(k as int) =~= all);
    }
    out
}

/// The members of the outermost object in their order, with repeated names.
pub fn read_members(layout: &Layout) -> (r: Vec<(Option<String>, String)>)
    requires
        layout.wf(),
    ensures
        members_view(r@) == members(layout@),
{
    let n = layout.count_members();
    let ghost all = members(layout@);
    let mut out: Vec<(Option<String>, String)> = Vec::new();
    let mut j: usize = 0;
    proof {
        assert(members_view(out@) =~= all.take(0));
    }
    while j < n
        invariant
            layout.wf(),
            j <= n,
            n == member_count(layout@),
            2 * n < cuts(layout@).len() || n == 0,
            cuts(layout@).len() <= usize::MAX,
            all == members(layout@),
            members_view(out@) == all.take(j as int),
        decreases n - j,
    {
        let name = read_string(layout.part(2 * j).as_str());
        let value = layout.part(2 * j + 1);
        let ghost before = out@;
        let ghost added = (view_option(name), value@);
        out.push((name, value));
        proof {
            assert(members_view(out@) =~= members_view(before).push(added));
            assert(all.take(j as int).push(added) =~= all.take(j + 1));
        }
        j += 1;
    }
    proof {
        assert(all.take(j as int) =~= all);
    }
    out
}

/// Reads a string, if the text is one.
pub fn read_string(text: &str) -> (r: Option<String>)
    ensures
        view_option(r) == string_in(text@),
{
    match read_node(text) {
        Ok(JsonNode::Text(value)) => Some(value),
        _ => None,
    }
}

/// Whether a member has a name.
pub fn names_field(name: &Option<String>, key: &str) -> (r: bool)
    ensures
        r == (view_option(*name) == Some(key@)),
{
    match name {
        Some(name) => same(name.as_str(), key),
        None => false,
    }
}

fn same_name(a: &Option<String>, b: &Option<String>) -> (r: bool)
    ensures
        r == (view_option(*a) == view_option(*b)),
{
    match (a, b) {
        (Some(a), Some(b)) => same(a.as_str(), b.as_str()),
        (None, None) => true,
        _ => false,
    }
}

/// Whether no name stands twice.
pub fn has_distinct_names(list: &Vec<(Option<String>, String)>) -> (r: bool)
    ensures
        r == distinct_names(members_view(list@)),
{
    let ghost model = members_view(list@);
    let mut k: usize = 0;
    while k < list.len()
        invariant
            k <= list@.len(),
            model == members_view(list@),
            forall|a: int, b: int|
                0 <= a < b < k ==> (#[trigger] model[a]).0 != (#[trigger] model[b]).0,
        decreases list.len() - k,
    {
        let mut i: usize = 0;
        while i < k
            invariant
                i <= k < list@.len(),
                model == members_view(list@),
                forall|a: int| 0 <= a < i ==> (#[trigger] model[a]).0 != model[k as int].0,
            decreases k - i,
        {
            proof {
                assert(model[i as int].0 == view_option(list@[i as int].0));
                assert(model[k as int].0 == view_option(list@[k as int].0));
            }
            if same_name(&list[i].0, &list[k].0) {
                return false;
            }
            i += 1;
        }
        k += 1;
    }
    true
}

/// The value of the last member with a name.
pub fn find_named(list: &Vec<(Option<String>, String)>, key: &str) -> (r: Option<String>)
    ensures
        view_option(r) == named_value(members_view(list@), key@),
{
    let ghost model = members_view(list@);
    let mut i: usize = list.len();
    proof {
        assert(model.take(i as int) =~= model);
    }
    while i > 0
        invariant
            i <= list@.len(),
            model == members_view(list@),
            named_value(model, key@) == named_value(model.take(i as int), key@),
        decreases i,
    {
        proof {
            assert(model.take(i as int).drop_last() =~= model.take(i - 1));
            assert(model.take(i as int).last() == model[i - 1]);
            assert(model[i - 1] == (view_option(list@[i - 1].0), list@[i - 1].1@));
        }
        if names_field(&list[i - 1].0, key) {
            return Some(list[i - 1].1.clone());
        }
        i -= 1;
    }
    None
}

/// Whether a JSON text is an object that names a member twice.
pub fn has_repeated_name(text: &str) -> (r: bool)
    ensures
        r == repeats_name(text@),
{
    match read_node(text) {
        Ok(JsonNode::Object(_)) => !has_distinct_names(&read_members(&Layout::of(text))),
        _ => false,
    }
}

} // verus!
