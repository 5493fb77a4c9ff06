//! Line breaking: the break opportunities of a text, by the Unicode Line
//! Breaking Algorithm (UAX #14) with the CSS `line-break` and `word-break`
//! options, and a pluggable segmenter for scripts written without spaces.

use crate::rule_data::{
    PropertyRange, class_in, class_with_rule, loose_rule, is_break_by_normal, state_in, is_break_utf32_by_loose, BreakState, LineBreakStrictness,
    LineBreakWordOption, RuleBreakData, AI, AL, BK, CJ, CM, CR, H2, H3, HY, ID, JL, JT, JV, LF, NL,
    NU, SA, SP, ZW, ZWJ,
};
use utf8_iter::Utf8CharIndices;
use vstd::prelude::*;
use vstd::string::StringSliceAdditionalSpecFns;
use vstd::utf8::encode_utf8;

verus! {

/// Options that tailor line breaking.
#[derive(Copy, Clone, PartialEq, Eq, Debug)]
pub struct LineBreakOptions {
    /// The strictness; `Strict` when none is given.
    pub strictness: Option<LineBreakStrictness>,
    /// Break opportunities between letters; `Normal` when none is given.
    pub word_option: Option<LineBreakWordOption>,
    /// The language subtag of the content locale, as lower-case ASCII padded
    /// with zeros (`*b"ja\0"`). Japanese and Chinese allow more breaks under
    /// `Normal` and `Loose`.
    pub content_locale: Option<[u8; 3]>,
}

impl Default for LineBreakOptions {
    fn default() -> (r: Self)
        ensures
            r.strictness is None,
            r.word_option is None,
            r.content_locale is None,
    {
        LineBreakOptions { strictness: None, word_option: None, content_locale: None }
    }
}

/// Options with their defaults filled in.
#[derive(Debug, Clone, Copy, PartialEq, Eq)]
pub struct ResolvedLineBreakOptions {
    pub strictness: LineBreakStrictness,
    pub word_option: LineBreakWordOption,
    /// Whether the content language is Japanese or Chinese.
    pub ja_zh: bool,
}

/// Whether a language subtag is `ja` or `zh`.
pub open spec fn is_ja_zh(lang: Seq<u8>) -> bool {
    lang =~= seq![106u8, 97u8, 0u8] || lang =~= seq![122u8, 104u8, 0u8]
}

/// The options with defaults filled in.
pub open spec fn resolve_options(options: LineBreakOptions) -> ResolvedLineBreakOptions {
    ResolvedLineBreakOptions {
        strictness: match options.strictness {
            Some(s) => s,
            None => LineBreakStrictness::Strict,
        },
        word_option: match options.word_option {
            Some(w) => w,
            None => LineBreakWordOption::Normal,
        },
        ja_zh: match options.content_locale {
            Some(l) => is_ja_zh(l@),
            None => false,
        },
    }
}

impl From<LineBreakOptions> for ResolvedLineBreakOptions {
    fn from(options: LineBreakOptions) -> (r: Self) {
        let ja_zh = match options.content_locale {
            Some(l) => (l[0] == 106 && l[1] == 97 && l[2] == 0) || (l[0] == 122 && l[1] == 104 && l[2]
                == 0),
            None => false,
        };
        let strictness = match options.strictness {
            Some(s) => s,
            None => LineBreakStrictness::Strict,
        };
        let word_option = match options.word_option {
            Some(w) => w,
            None => LineBreakWordOption::Normal,
        };
        ResolvedLineBreakOptions { strictness, word_option, ja_zh }
    }
}

impl vstd::std_specs::convert::FromSpecImpl<LineBreakOptions> for ResolvedLineBreakOptions {
    open spec fn obeys_from_spec() -> bool {
        true
    }

    open spec fn from_spec(v: LineBreakOptions) -> Self {
        resolve_options(v)
    }
}

/// A segmenter for runs of text in scripts written without spaces between
/// words (Thai, Lao, Khmer, Myanmar), by dictionary or by a learned model.
///
/// An implementation names what it returns for a run in `spec_segment_run`;
/// what the line breaker promises about complex-script runs is stated over
/// that name.
pub trait ComplexSegmenter {
    /// The breaks that the segmenter finds within a run of code points.
    spec fn spec_segment_run(&self, run: Seq<u32>) -> Seq<usize>;

    /// The breaks within a run of code points, each as the number of code
    /// points before it.
    fn segment_run(&self, run: &Vec<u32>) -> (r: Vec<usize>)
        ensures
            r@ == self.spec_segment_run(run@),
    ;
}

/// A complex-script segmenter that finds no breaks, leaving such runs to the
/// rule table.
#[derive(Debug, Clone, Copy, PartialEq, Eq, Default)]
pub struct NoComplexSegmenter;

impl ComplexSegmenter for NoComplexSegmenter {
    open spec fn spec_segment_run(&self, run: Seq<u32>) -> Seq<usize> {
        Seq::empty()
    }

    fn segment_run(&self, run: &Vec<u32>) -> (r: Vec<usize>) {
        Vec::new()
    }
}

/// Whether a code point belongs to a script written without spaces (class
/// `SA`); never in Latin-1 text.
pub open spec fn is_complex(kind: LineBreakType, table: Seq<PropertyRange>, cp: u32) -> bool {
    kind != LineBreakType::Latin1 && class_in(table, cp) == SA
}

/// The end of the run of complex-script code points that goes on at `j`: the
/// first index from `j` on that is past the text or not of such a script.
pub open spec fn run_end(
    chars: Seq<(usize, u32)>,
    kind: LineBreakType,
    table: Seq<PropertyRange>,
    j: int,
) -> int
    decreases chars.len() - j,
{
    if j < 0 || j >= chars.len() || !is_complex(kind, table, chars[j].1) {
        j
    } else {
        run_end(chars, kind, table, j + 1)
    }
}

/// The code points from `from` up to `to`.
pub open spec fn run_of(chars: Seq<(usize, u32)>, from: int, to: int) -> Seq<u32> {
    Seq::new((to - from) as nat, |i: int| chars[from + i].1)
}

/// The offsets of a segmenter's answer that are taken: the longest prefix
/// whose offsets grow strictly from `last` and stay within the run of
/// `run_len` code points.
pub open spec fn accepted_offsets(offsets: Seq<usize>, last: int, run_len: int) -> Seq<usize>
    decreases offsets.len(),
{
    if offsets.len() == 0 || offsets[0] <= last || offsets[0] > run_len {
        Seq::empty()
    } else {
        seq![offsets[0]] + accepted_offsets(offsets.drop_first(), offsets[0] as int, run_len)
    }
}

/// The code-unit encoding of the text that a line-break iterator walks.
#[derive(Debug, Clone, Copy, PartialEq, Eq, Structural)]
pub enum LineBreakType {
    /// A `str`, with offsets in bytes.
    Utf8,
    /// Bytes that may not be UTF-8; bad sequences read as U+FFFD.
    PotentiallyIllFormedUtf8,
    /// Latin-1 bytes, one code point each; the content locale is not used.
    Latin1,
    /// UTF-16 code units; a lone surrogate reads as itself.
    Utf16,
}

/// Offsets of code points that start at 0 (when there are any), grow
/// strictly, and lie before `len`; there are none exactly when `len` is 0.
pub open spec fn positions_ok(chars: Seq<(usize, u32)>, len: int) -> bool {
    &&& (chars.len() == 0 <==> len == 0)
    &&& chars.len() > 0 ==> chars[0].0 == 0
    &&& forall|i: int| 0 <= i < chars.len() ==> #[trigger] chars[i].0 < len
    &&& forall|i: int, j: int| 0 <= i < j < chars.len() ==> chars[i].0 < chars[j].0
}

/// A line-break iterator: it reports the offset of each break opportunity
/// of its text, from 0 to the end of the text, in increasing order.
pub struct LineBreakIterator<'data, C> {
    chars: Vec<(usize, u32)>,
    kind: LineBreakType,
    len: usize,
    next_index: usize,
    current: Option<usize>,
    empty_reported: bool,
    result_cache: Vec<usize>,
    data: &'data RuleBreakData,
    options: ResolvedLineBreakOptions,
    complex: &'data C,
}

/// Whether a class is a typographic letter unit, which `KeepAll` keeps
/// together.
pub open spec fn spec_typographic_letter(p: u8) -> bool {
    p == AI || p == AL || p == ID || p == NU || p == HY || p == H2 || p == H3 || p == JL || p == JV
        || p == JT || p == CJ
}

fn is_typographic_letter(p: u8) -> (r: bool)
    ensures
        r == spec_typographic_letter(p),
{
    p == AI || p == AL || p == ID || p == NU || p == HY || p == H2 || p == H3 || p == JL || p == JV
        || p == JT || p == CJ
}

/// Where the cursor of an iterator stands when a call of `next` begins.
pub enum StringBoundaryPosType {
    /// Before the first break.
    Start,
    /// Between the first and the last break.
    Middle,
    /// After the last break.
    End,
}

impl<'data, C: ComplexSegmenter> LineBreakIterator<'data, C> {
    /// The code points of the text with their offsets.
    pub closed spec fn spec_chars(&self) -> Seq<(usize, u32)> {
        self.chars@
    }

    /// The length of the text in code units.
    pub closed spec fn spec_len(&self) -> int {
        self.len as int
    }

    pub closed spec fn spec_kind(&self) -> LineBreakType {
        self.kind
    }

    pub closed spec fn spec_data(&self) -> RuleBreakData {
        *self.data
    }

    pub closed spec fn spec_options(&self) -> ResolvedLineBreakOptions {
        self.options
    }

    /// Whether the code point at `j` is of a script without spaces.
    pub open spec fn complex_at(&self, j: int) -> bool {
        is_complex(self.spec_kind(), self.spec_data().property_table@, self.spec_chars()[j].1)
    }

    pub closed spec fn spec_complex(&self) -> C {
        *self.complex
    }

    /// The breaks that wait to be reported, as indices of code points (the
    /// number of code points for the end of the text).
    pub closed spec fn cached_breaks(&self) -> Seq<usize> {
        self.result_cache@
    }

    /// The offset of the code point at `j`, or the length for `j == n`.
    pub open spec fn position_of(&self, j: int) -> int {
        if j < self.spec_chars().len() {
            self.spec_chars()[j].0 as int
        } else {
            self.spec_len()
        }
    }

    /// The breaks that the complex-script segmenter gives for the run that
    /// starts at `left`, as counts of code points from `left`.
    pub open spec fn complex_breaks(&self, left: int) -> Seq<usize> {
        let end = run_end(self.spec_chars(), self.spec_kind(), self.spec_data().property_table@, left + 2);
        accepted_offsets(
            self.spec_complex().spec_segment_run(run_of(self.spec_chars(), left, end)),
            0,
            end - left,
        )
    }

    /// The iterator's invariant.
    pub closed spec fn wf(&self) -> bool {
        let n = self.chars@.len();
        &&& positions_ok(self.chars@, self.len as int)
        &&& self.next_index <= n
        &&& match self.current {
            Some(k) => k + 1 == self.next_index,
            None => self.next_index == 0 || self.next_index == n,
        }
        &&& self.empty_reported ==> n == 0
        &&& self.current is None ==> self.result_cache@.len() == 0
        &&& forall|i: int|
            0 <= i < self.result_cache@.len() ==> self.current->0 < #[trigger] self.result_cache@[i]
                <= n
        &&& forall|i: int, j: int|
            0 <= i < j < self.result_cache@.len() ==> self.result_cache@[i] < self.result_cache@[j]
        &&& self.result_cache@.len() > 0 ==> forall|j: int|
            self.current->0 <= j < self.result_cache@.last() ==> j < n && #[trigger] self.complex_at(
                j,
            )
    }

    /// Whether the first break has been reported.
    pub closed spec fn started(&self) -> bool {
        self.current is Some || self.next_index > 0 || self.empty_reported
    }

    /// Whether the last break has been reported.
    pub closed spec fn finished(&self) -> bool {
        &&& self.current is None
        &&& self.next_index == self.chars@.len()
        &&& (self.chars@.len() > 0 || self.empty_reported)
    }

    /// The offset of the last break reported.
    pub closed spec fn last_break(&self) -> int {
        match self.current {
            Some(k) => self.chars@[k as int].0 as int,
            None => self.len as int,
        }
    }

    /// Whether an offset is the start of a code point or the end of the text.
    pub open spec fn is_boundary(&self, p: int) -> bool {
        p == self.spec_len() || exists|k: int|
            0 <= k < self.spec_chars().len() && #[trigger] self.spec_chars()[k].0 == p
    }

    /// How far the iterator is from its end.
    pub closed spec fn remaining(&self) -> nat {
        if !self.started() {
            (self.len + 2) as nat
        } else if self.finished() {
            0
        } else {
            (self.len - self.last_break() + 1) as nat
        }
    }

    /// Whether `other` walks the same text with the same data and options.
    pub closed spec fn same_text(&self, other: &Self) -> bool {
        &&& self.chars == other.chars
        &&& self.kind == other.kind
        &&& self.len == other.len
        &&& self.data == other.data
        &&& self.options == other.options
        &&& self.complex == other.complex
    }

    fn advance_iter(&mut self)
        requires
            old(self).wf(),
            old(self).current is Some ==> old(self).result_cache@.len() == 0,
        ensures
            final(self).same_text(old(self)),
            final(self).empty_reported == old(self).empty_reported,
            final(self).result_cache == old(self).result_cache,
            old(self).next_index < old(self).chars@.len() ==> final(self).current == Some(
                old(self).next_index,
            ) && final(self).next_index == old(self).next_index + 1,
            old(self).next_index >= old(self).chars@.len() ==> final(self).current is None
                && final(self).next_index == old(self).next_index,
    {
        if self.next_index < self.chars.len() {
            self.current = Some(self.next_index);
            self.next_index = self.next_index + 1;
        } else {
            self.current = None;
        }
    }

    fn is_eof(&self) -> (r: bool)
        ensures
            r == self.current is None,
    {
        self.current.is_none()
    }

    /// Whether the next break is the first, the iterator is done, or neither.
    fn check_eof(&mut self) -> (r: StringBoundaryPosType)
        requires
            old(self).wf(),
        ensures
            final(self).wf(),
            final(self).same_text(old(self)),
            final(self).result_cache == old(self).result_cache,
            !old(self).started() ==> (r is Start && final(self).started() && final(self).last_break()
                == 0),
            old(self).finished() ==> (r is End && final(self).finished()),
            old(self).started() && !old(self).finished() ==> (r is Middle && *final(self) == *old(
                self,
            )),
    {
        if self.is_eof() {
            self.advance_iter();
            if self.is_eof() {
                if self.len == 0 && !self.empty_reported {
                    self.empty_reported = true;
                    StringBoundaryPosType::Start
                } else {
                    StringBoundaryPosType::End
                }
            } else {
                StringBoundaryPosType::Start
            }
        } else {
            StringBoundaryPosType::Middle
        }
    }

    fn get_current_position(&self) -> (r: Option<usize>)
        requires
            self.wf(),
        ensures
            self.current is Some ==> r == Some(self.chars@[self.current->0 as int].0),
            self.current is None ==> r is None,
    {
        match self.current {
            Some(k) => Some(self.chars[k].0),
            None => None,
        }
    }

    fn get_current_codepoint(&self) -> (r: Option<u32>)
        requires
            self.wf(),
        ensures
            self.current is Some ==> r == Some(self.chars@[self.current->0 as int].1),
            self.current is None ==> r is None,
    {
        match self.current {
            Some(k) => Some(self.chars[k].1),
            None => None,
        }
    }

    /// The class of a code point under the options; Latin-1 text reads the
    /// table's class as it is.
    pub open spec fn class_of(&self, c: u32) -> u8 {
        if self.spec_kind() == LineBreakType::Latin1 {
            class_in(self.spec_data().property_table@, c)
        } else {
            class_with_rule(
                class_in(self.spec_data().property_table@, c),
                self.spec_options().strictness,
                self.spec_options().word_option,
            )
        }
    }

    /// The class of the code point at `j`.
    pub open spec fn class_at(&self, j: int) -> u8 {
        self.class_of(self.spec_chars()[j].1)
    }

    /// Whether no breaks from a complex-script run wait to be reported.
    pub closed spec fn cache_empty(&self) -> bool {
        self.result_cache@.len() == 0
    }

    /// What the step from the code point at `c` to the next one decides,
    /// when it decides alone: `Some(Some(p))` for a break at offset `p`,
    /// `Some(None)` to keep the two together and go on, and `None` where a
    /// combining mark attaches or a rule spans more than two classes.
    ///
    /// The step is the rules in order: a combining mark or joiner attaches
    /// (LB9); `KeepAll` keeps typographic letters together, `BreakAll` reads
    /// letters, digits and complex scripts on the left as ideographs; `Normal`
    /// breaks before the CJK hyphen-likes for Japanese and Chinese; `Loose`
    /// decides by its own rules where they speak; `Anywhere` breaks; a run of
    /// complex script goes to the segmenter; the rule table decides the rest,
    /// and no break comes right after a joiner.
    pub open spec fn step_at(&self, c: int) -> Option<Option<int>> {
        let n = self.spec_chars().len();
        let o = self.spec_options();
        if c + 1 >= n {
            Some(Some(self.spec_len()))
        } else {
            let left = self.class_at(c);
            let right = self.class_at(c + 1);
            let cp = self.spec_chars()[c + 1].1;
            let pos = self.spec_chars()[c + 1].0 as int;
            let after_zwj = left == ZWJ;
            let read_left = if o.word_option == LineBreakWordOption::BreakAll && (left == AL
                || left == NU || left == SA) {
                ID
            } else {
                left
            };
            let loose = loose_rule(cp, read_left, right, o.ja_zh);
            let state = state_in(self.spec_data(), read_left, right);
            if (right == CM || (right == ZWJ && o.strictness != LineBreakStrictness::Anywhere))
                && left != BK && left != CR && left != LF && left != NL && left != SP && left
                != ZW {
                None
            } else if o.word_option == LineBreakWordOption::KeepAll && spec_typographic_letter(
                left,
            ) && spec_typographic_letter(right) {
                Some(None)
            } else if o.strictness == LineBreakStrictness::Normal && (cp == 0x301C || cp
                == 0x30A0) && o.ja_zh && !after_zwj {
                Some(Some(pos))
            } else if o.strictness == LineBreakStrictness::Loose && loose is Some {
                if loose->0 && !after_zwj {
                    Some(Some(pos))
                } else {
                    Some(None)
                }
            } else if o.strictness == LineBreakStrictness::Anywhere {
                Some(Some(pos))
            } else if o.word_option != LineBreakWordOption::BreakAll && self.complex_at(c)
                && self.complex_at(c + 1) && self.complex_breaks(c).len() > 0 {
                Some(Some(self.position_of(c + self.complex_breaks(c)[0])))
            } else if state is Break || state is NoMatch {
                if after_zwj {
                    Some(None)
                } else {
                    Some(Some(pos))
                }
            } else if state is Keep {
                Some(None)
            } else {
                None
            }
        }
    }

    /// The next break from the code point at `c`, where every step on the
    /// way decides alone (see `step_at`).
    pub open spec fn simple_next(&self, c: int) -> Option<int>
        decreases self.spec_chars().len() - c,
    {
        match self.step_at(c) {
            Some(Some(p)) => Some(p),
            Some(None) => if 0 <= c && c + 1 < self.spec_chars().len() {
                self.simple_next(c + 1)
            } else {
                None
            },
            None => None,
        }
    }

    /// Whether the options and the rule table put a break right after the
    /// current code point: under `Anywhere` before any code point but a
    /// combining mark (unless `KeepAll` holds letters together), and under
    /// `Strict` where the table breaks a pair that no combining mark or joiner
    /// touches, with the default word option outside complex-script runs, or
    /// with `BreakAll`, which reads letters, digits and complex scripts on the
    /// left as ideographs.
    pub open spec fn breaks_at_next(&self) -> bool {
        let k = self.cursor_index();
        let o = self.spec_options();
        let left = self.class_at(k);
        let right = self.class_at(k + 1);
        let left_read = if o.word_option == LineBreakWordOption::BreakAll && (left == AL || left
            == NU || left == SA) {
            ID
        } else {
            left
        };
        let state = state_in(self.spec_data(), left_read, right);
        &&& k + 1 < self.spec_chars().len()
        &&& {
            ||| o.strictness == LineBreakStrictness::Anywhere && o.word_option
                != LineBreakWordOption::KeepAll && right != CM
            ||| o.strictness == LineBreakStrictness::Strict && left != ZWJ && right != CM && right
                != ZWJ && (o.word_option == LineBreakWordOption::BreakAll || (o.word_option
                == LineBreakWordOption::Normal && !(self.complex_at(k) && self.complex_at(k + 1))))
                && (state is Break || state is NoMatch)
        }
    }

    /// Whether the options and the rule table keep the current code point
    /// with the next: a combining mark or joiner attaches to what precedes it
    /// (but after spaces and line ends), `KeepAll` holds two typographic
    /// letter units together, and under `Strict` (or `Normal`, away from the
    /// CJK hyphen-likes it breaks before) with the default word option the
    /// table's `Keep` holds outside complex-script runs.
    pub open spec fn keeps_next(&self) -> bool {
        let k = self.cursor_index();
        let o = self.spec_options();
        let left = self.class_at(k);
        let right = self.class_at(k + 1);
        let state = state_in(self.spec_data(), left, right);
        &&& k + 1 < self.spec_chars().len()
        &&& {
            ||| (right == CM || (right == ZWJ && o.strictness != LineBreakStrictness::Anywhere))
                && left != BK && left != CR && left != LF && left != NL && left != SP && left
                != ZW
            ||| o.word_option == LineBreakWordOption::KeepAll && spec_typographic_letter(left)
                && spec_typographic_letter(right)
            ||| (o.strictness == LineBreakStrictness::Strict || (o.strictness
                == LineBreakStrictness::Normal && !((self.spec_chars()[k + 1].1 == 0x301C
                || self.spec_chars()[k + 1].1 == 0x30A0) && o.ja_zh))) && o.word_option
                == LineBreakWordOption::Normal && !(self.complex_at(k) && self.complex_at(k + 1))
                && state is Keep
        }
    }

    /// Whether the next step hands the run of complex-script code points at
    /// the cursor to the complex-script segmenter: under the default word
    /// option and `Strict` (or `Normal`, away from the CJK hyphen-likes), when
    /// the current and the next code point are of such a script and no
    /// combining mark attaches the next one.
    pub open spec fn segments_next(&self) -> bool {
        let k = self.cursor_index();
        let o = self.spec_options();
        let left = self.class_at(k);
        let right = self.class_at(k + 1);
        &&& k + 1 < self.spec_chars().len()
        &&& o.word_option == LineBreakWordOption::Normal
        &&& (o.strictness == LineBreakStrictness::Strict || (o.strictness
            == LineBreakStrictness::Normal && !((self.spec_chars()[k + 1].1 == 0x301C
            || self.spec_chars()[k + 1].1 == 0x30A0) && o.ja_zh)))
        &&& !((right == CM || right == ZWJ) && left != BK && left != CR && left != LF && left
            != NL && left != SP && left != ZW)
        &&& self.complex_at(k) && self.complex_at(k + 1)
    }

    fn get_linebreak_property(&self, c: u32) -> (r: u8)
        ensures
            r == self.class_of(c),
    {
        match self.kind {
            LineBreakType::Latin1 => self.data.property(c),
            _ => self.data.get_linebreak_property_utf32_with_rule(
                c,
                self.options.strictness,
                self.options.word_option,
            ),
        }
    }

    fn get_current_linebreak_property(&self) -> (r: Option<u8>)
        requires
            self.wf(),
        ensures
            r is Some <==> self.current is Some,
    {
        match self.get_current_codepoint() {
            Some(c) => Some(self.get_linebreak_property(c)),
            None => None,
        }
    }

    /// Whether a code point is of a script without spaces; never for Latin-1.
    fn use_complex_breaking(&self, c: u32) -> (r: bool)
        ensures
            r == (self.kind != LineBreakType::Latin1 && class_in(self.data.property_table@, c) == SA),
    {
        match self.kind {
            LineBreakType::Latin1 => false,
            _ => self.data.use_complex_breaking_utf32(c),
        }
    }

    /// The index of the cursor: the current code point, or `n` past the end.
    pub closed spec fn cursor_index(&self) -> int {
        match self.current {
            Some(k) => k as int,
            None => self.chars@.len() as int,
        }
    }

    /// The last break reported is a boundary of the text.
    pub proof fn lemma_last_break_boundary(&self)
        requires
            self.wf(),
        ensures
            self.is_boundary(self.last_break()),
            0 <= self.last_break() <= self.spec_len(),
    {
        if let Some(k) = self.current {
            assert(self.spec_chars()[k as int].0 == self.last_break());
        }
    }

    /// Where the cursor stands: the offsets of the code points start at 0 and
    /// grow; between the first and the last break the cursor is on the code
    /// point where the last break was reported, and after the last break it
    /// is past the end.
    pub proof fn lemma_cursor(&self)
        requires
            self.wf(),
        ensures
            positions_ok(self.spec_chars(), self.spec_len()),
            self.started() && !self.finished() ==> 0 <= self.cursor_index()
                < self.spec_chars().len() && self.spec_chars()[self.cursor_index()].0
                == self.last_break(),
            self.finished() ==> self.cursor_index() == self.spec_chars().len()
                && self.last_break() == self.spec_len(),
            !self.started() ==> self.cache_empty(),
    {
    }

    /// Iterators over the same text agree on which code points are of
    /// complex scripts.
    proof fn lemma_complex_same_text(&self, other: &Self, j: int)
        requires
            self.same_text(other),
        ensures
            self.complex_at(j) == other.complex_at(j),
    {
    }

    /// Segments the run of complex-script code points that starts at `left`
    /// and takes the first break that the segmenter finds in it; the later
    /// breaks wait in the cache for the next calls.
    ///
    /// Only offsets that grow and stay within the run are taken: a break is
    /// never at the run's start nor past its end, so no break is skipped or
    /// reported twice.
    fn line_handle_complex_language(&mut self, left: usize) -> (r: Option<usize>)
        requires
            old(self).wf(),
            left + 1 < old(self).chars@.len(),
            old(self).current == Some((left + 1) as usize),
            old(self).result_cache@.len() == 0,
            old(self).complex_at(left as int),
            old(self).complex_at(left + 1),
        ensures
            final(self).wf(),
            final(self).same_text(old(self)),
            final(self).empty_reported == old(self).empty_reported,
            r is None ==> *final(self) == *old(self),
            r is Some ==> r->0 == final(self).last_break() && left < final(self).cursor_index()
                && (final(self).current is None ==> final(self).finished()),
            r is Some ==> forall|j: int|
                left <= j < final(self).cursor_index() ==> j < final(self).spec_chars().len()
                    && #[trigger] final(self).complex_at(j),
            ({
                let acc = old(self).complex_breaks(left as int);
                &&& acc.len() == 0 <==> r is None
                &&& acc.len() > 0 ==> final(self).cursor_index() == left + acc[0]
                    && final(self).cached_breaks() == acc.drop_first().map_values(
                    |o: usize| (left + o) as usize,
                )
            }),
    {
        let n = self.chars.len();
        let ghost table = self.data.property_table@;
        let mut end: usize = left + 2;
        while end < n && self.use_complex_breaking(self.chars[end].1)
            invariant
                self.wf(),
                *self == *old(self),
                n == self.chars@.len(),
                left + 2 <= end <= n,
                forall|j: int| left <= j < end ==> #[trigger] self.complex_at(j),
                table == self.data.property_table@,
                run_end(self.chars@, self.kind, table, left + 2) == run_end(
                    self.chars@,
                    self.kind,
                    table,
                    end as int,
                ),
            decreases n - end,
        {
            end = end + 1;
        }
        assert(run_end(self.chars@, self.kind, table, end as int) == end);
        let mut run: Vec<u32> = Vec::new();
        let mut i: usize = left;
        while i < end
            invariant
                *self == *old(self),
                n == self.chars@.len(),
                left <= i <= end <= n,
                forall|j: int| left <= j < end ==> #[trigger] self.complex_at(j),
                run@ =~= run_of(self.chars@, left as int, i as int),
            decreases end - i,
        {
            run.push(self.chars[i].1);
            i = i + 1;
        }
        assert(run@ =~= run_of(self.chars@, left as int, end as int));
        let offsets = self.complex.segment_run(&run);
        let run_len: usize = end - left;
        let mut breaks: Vec<usize> = Vec::new();
        let mut last: usize = 0;
        let mut j: usize = 0;
        let ghost all = offsets@;
        let ghost mut acc: Seq<usize> = Seq::empty();
        assert(all.subrange(0, all.len() as int) =~= all);
        while j < offsets.len()
            invariant
                *self == *old(self),
                n == self.chars@.len(),
                end <= n,
                forall|j: int| left <= j < end ==> #[trigger] self.complex_at(j),
                last <= run_len,
                run_len == end - left,
                all == offsets@,
                j <= all.len(),
                acc + accepted_offsets(all.subrange(j as int, all.len() as int), last as int, run_len as int)
                    == accepted_offsets(all, 0, run_len as int),
                breaks@.len() == acc.len(),
                forall|a: int| 0 <= a < acc.len() ==> #[trigger] breaks@[a] == left + acc[a],
                breaks@.len() == 0 ==> last == 0,
                breaks@.len() > 0 ==> breaks@.last() == left + last,
                forall|a: int| 0 <= a < breaks@.len() ==> left < #[trigger] breaks@[a] <= end,
                forall|a: int, b: int| 0 <= a < b < breaks@.len() ==> breaks@[a] < breaks@[b],
            ensures
                acc == accepted_offsets(all, 0, run_len as int),
                breaks@.len() == acc.len(),
                forall|a: int| 0 <= a < acc.len() ==> #[trigger] breaks@[a] == left + acc[a],
                forall|a: int| 0 <= a < breaks@.len() ==> left < #[trigger] breaks@[a] <= end,
                forall|a: int, b: int| 0 <= a < b < breaks@.len() ==> breaks@[a] < breaks@[b],
            decreases offsets@.len() - j,
        {
            let o = offsets[j];
            let ghost rest = all.subrange(j as int, all.len() as int);
            assert(rest[0] == o);
            if o <= last || o > run_len {
                assert(accepted_offsets(rest, last as int, run_len as int) =~= Seq::<usize>::empty());
                assert(acc + Seq::<usize>::empty() =~= acc);
                break;
            }
            assert(rest.drop_first() =~= all.subrange(j + 1, all.len() as int));
            assert(acc + accepted_offsets(rest, last as int, run_len as int) =~= acc.push(o)
                + accepted_offsets(all.subrange(j + 1, all.len() as int), o as int, run_len as int));
            breaks.push(left + o);
            proof {
                acc = acc.push(o);
            }
            last = o;
            j = j + 1;
        }
        if breaks.len() == 0 {
            return None;
        }
        let k = breaks[0];
        let ghost found = breaks@;
        breaks.remove(0);
        assert(breaks@ =~= acc.drop_first().map_values(|o: usize| (left + o) as usize));
        assert(forall|a: int| 0 <= a < breaks@.len() ==> breaks@[a] == found[a + 1]);
        assert(forall|a: int| 0 <= a < breaks@.len() ==> k < #[trigger] breaks@[a] <= end);
        assert(breaks@.len() > 0 ==> breaks@.last() == found.last());
        let ghost before = *self;
        self.seek(k);
        let r = if k < n {
            self.result_cache = breaks;
            Some(self.chars[k].0)
        } else {
            assert(breaks@.len() == 0);
            Some(self.len)
        };
        proof {
            assert forall|j: int| left <= j < end implies #[trigger] self.complex_at(j) by {
                self.lemma_complex_same_text(&before, j);
            }
        }
        r
    }

    /// Follows a rule of the table that spans more than two classes, from the
    /// state `index` reached at `right_idx`: the break it finds, or `None`
    /// when the rule keeps the text together and scanning goes on from the
    /// cursor.
    fn match_longer_rule(
        &mut self,
        index: u8,
        right_idx: usize,
        right_prop: u8,
        after_zwj: bool,
        after_lb9_zwj: bool,
    ) -> (r: Option<Option<usize>>)
        requires
            old(self).wf(),
            old(self).current == Some(right_idx),
            old(self).result_cache@.len() == 0,
        ensures
            final(self).wf(),
            final(self).same_text(old(self)),
            final(self).empty_reported == old(self).empty_reported,
            final(self).result_cache@.len() == 0,
            r is None ==> final(self).current is Some && final(self).current->0 >= right_idx,
            r is Some ==> r->0 is Some && r->0->0 == final(self).last_break(),
            r is Some && final(self).current is Some ==> final(self).current->0 >= right_idx,
            r is Some && final(self).current is None ==> final(self).finished(),
    {
        let n = self.chars.len();
        let mut index: u8 = index;
        let mut previous_next = self.next_index;
        let mut previous_current = self.current;
        let mut previous_is_after_zwj = after_zwj;
        let mut left_prop_pre_lb9 = right_prop;
        let is_intermediate_rule_no_match = if after_lb9_zwj {
            true
        } else {
            index > self.data.last_codepoint_property
        };
        loop
            invariant
                self.wf(),
                self.same_text(old(self)),
                right_idx < n,
                self.empty_reported == old(self).empty_reported,
                n == self.chars@.len(),
                self.current is Some,
                self.current->0 >= right_idx,
                previous_current is Some,
                right_idx <= previous_current->0 <= self.current->0,
                previous_next == previous_current->0 + 1,
                self.result_cache@.len() == 0,
            decreases n - self.next_index,
        {
            self.advance_iter();
            let after_zwj = left_prop_pre_lb9 == ZWJ;
            let previous_break_state_is_cp_prop = index
                <= self.data.last_codepoint_property;
            let prop = match self.get_current_linebreak_property() {
                Some(p) => p,
                None => {
                    let break_state = self.data.get_break_state_from_table(
                        index,
                        self.data.eot_property,
                    );
                    if break_state == BreakState::NoMatch {
                        self.next_index = previous_next;
                        self.current = previous_current;
                        if previous_is_after_zwj {
                            return None;
                        } else {
                            proof {
                                self.lemma_last_break_boundary();
                            }
                            return Some(self.get_current_position());
                        }
                    }
                    return Some(Some(self.len));
                },
            };
            if (prop == CM || prop == ZWJ) && left_prop_pre_lb9 != BK && left_prop_pre_lb9
                != CR && left_prop_pre_lb9 != LF && left_prop_pre_lb9 != NL
                && left_prop_pre_lb9 != SP && left_prop_pre_lb9 != ZW {
                left_prop_pre_lb9 = prop;
                continue ;
            }
            match self.data.get_break_state_from_table(index, prop) {
                BreakState::Keep => return None,
                BreakState::NoMatch => {
                    self.next_index = previous_next;
                    self.current = previous_current;
                    if after_zwj {
                        if is_intermediate_rule_no_match && !previous_is_after_zwj {
                            proof {
                                self.lemma_last_break_boundary();
                            }
                            return Some(self.get_current_position());
                        }
                        return None;
                    } else if previous_is_after_zwj {
                        return None;
                    } else {
                        proof {
                            self.lemma_last_break_boundary();
                        }
                        return Some(self.get_current_position());
                    }
                },
                BreakState::Break => {
                    if after_zwj {
                        return None;
                    } else {
                        proof {
                            self.lemma_last_break_boundary();
                        }
                        return Some(self.get_current_position());
                    }
                },
                BreakState::Intermediate(i) => {
                    index = i;
                    previous_next = self.next_index;
                    previous_current = self.current;
                    previous_is_after_zwj = after_zwj;
                },
                BreakState::Index(i) => {
                    index = i;
                    if previous_break_state_is_cp_prop {
                        previous_next = self.next_index;
                        previous_current = self.current;
                        previous_is_after_zwj = after_zwj;
                    }
                },
            }
            left_prop_pre_lb9 = prop;
        }
    }

    /// The next break opportunity: 0 first, then increasing offsets up to the
    /// length of the text, then `None`. The empty text has the one break 0.
    #[verifier::rlimit(100)]
    pub fn next(&mut self) -> (r: Option<usize>)
        requires
            old(self).wf(),
        ensures
            final(self).wf(),
            final(self).same_text(old(self)),
            !old(self).started() ==> r == Some(0usize) && final(self).started()
                && final(self).last_break() == 0,
            old(self).finished() ==> r is None && final(self).finished(),
            old(self).started() && !old(self).finished() ==> r is Some && final(self).started()
                && r->0 == final(self).last_break() && old(self).last_break() < r->0,
            r is Some ==> final(self).is_boundary(r->0 as int) && r->0 <= final(self).spec_len(),
            r is Some ==> final(self).remaining() < old(self).remaining(),
            r is Some && r->0 == old(self).spec_len() ==> final(self).finished(),
            old(self).started() && !old(self).finished() && old(self).cache_empty()
                && old(self).cursor_index() + 1 == old(self).spec_chars().len() ==> r == Some(
                old(self).spec_len() as usize,
            ),
            old(self).started() && !old(self).finished() && old(self).cache_empty()
                && old(self).keeps_next() ==> r is Some && old(self).spec_chars()[old(
                self,
            ).cursor_index() + 1].0 < r->0,
            old(self).cache_empty() && (old(self).spec_options().strictness
                == LineBreakStrictness::Anywhere || old(self).spec_options().word_option
                == LineBreakWordOption::BreakAll || old(self).spec_kind() == LineBreakType::Latin1)
                ==> final(self).cache_empty(),
            !old(self).cache_empty() ==> r == Some(
                old(self).position_of(old(self).cached_breaks()[0] as int) as usize,
            ) && final(self).cached_breaks() == old(self).cached_breaks().drop_first(),
            ({
                let k = old(self).cursor_index();
                let acc = old(self).complex_breaks(k);
                old(self).started() && !old(self).finished() && old(self).cache_empty() && old(
                    self,
                ).segments_next() && acc.len() > 0 ==> r == Some(
                    old(self).position_of(k + acc[0]) as usize,
                ) && final(self).cached_breaks() == acc.drop_first().map_values(
                    |o: usize| (k + o) as usize,
                )
            }),
            old(self).started() && !old(self).finished() && old(self).cache_empty() && old(
                self,
            ).simple_next(old(self).cursor_index()) is Some ==> r == Some(
                old(self).simple_next(old(self).cursor_index())->0 as usize,
            ),
            old(self).started() && !old(self).finished() && old(self).cache_empty()
                && old(self).breaks_at_next() ==> r == Some(
                old(self).spec_chars()[old(self).cursor_index() + 1].0,
            ),
    {
        match self.check_eof() {
            StringBoundaryPosType::Start => {
                proof {
                    self.lemma_last_break_boundary();
                    assert(self.spec_chars() == old(self).spec_chars());
                }
                return Some(0);
            },
            StringBoundaryPosType::End => return None,
            StringBoundaryPosType::Middle => {},
        }
        let ghost entry: usize = self.current->0;
        let n = self.chars.len();
        if self.result_cache.len() > 0 {
            let k = self.result_cache[0];
            let ghost cached = self.result_cache@;
            self.result_cache.remove(0);
            assert(forall|a: int| 0 <= a < self.result_cache@.len() ==> self.result_cache@[a] == cached[a + 1]);
            assert(forall|a: int| 0 <= a < self.result_cache@.len() ==> k < #[trigger] self.result_cache@[a]);
            assert(self.result_cache@.len() > 0 ==> self.result_cache@.last() == cached.last());
            let ghost before = *self;
            self.seek(k);
            proof {
                assert forall|j: int|
                    entry <= j < cached.last() implies j < n && #[trigger] self.complex_at(j) by {
                    self.lemma_complex_same_text(&*old(self), j);
                    assert(old(self).complex_at(j));
                }
            }
            if k < n {
                proof {
                    self.lemma_last_break_boundary();
                }
                return Some(self.chars[k].0);
            } else {
                self.result_cache.clear();
                return Some(self.len);
            }
        }
        let mut lb9_left: Option<u8> = None;
        let mut lb8a_after_lb9 = false;
        let ghost mut first = true;
        loop
            invariant
                first ==> *self == *old(self) && lb9_left is None && !lb8a_after_lb9,
                !first ==> !old(self).breaks_at_next() && entry + 1 < n,
                !first ==> self.current->0 >= entry + 1,
                old(self).result_cache@.len() == 0,
                old(self).simple_next(entry as int) is Some ==> lb9_left is None
                    && !lb8a_after_lb9 && old(self).simple_next(entry as int) == old(
                    self,
                ).simple_next(self.current->0 as int),
                !first ==> !(old(self).segments_next() && old(self).complex_breaks(entry as int).len()
                    > 0),
                self.wf(),
                self.same_text(old(self)),
                self.empty_reported == old(self).empty_reported,
                n == self.chars@.len(),
                old(self).started() && !old(self).finished(),
                old(self).current == Some(entry),
                self.current is Some,
                self.current->0 >= entry,
                self.result_cache@.len() == 0,
            decreases n - self.next_index,
        {
            let ghost was_first = first;
            proof {
                first = false;
            }
            let left_idx = self.current.unwrap();
            let left_codepoint = self.chars[left_idx].1;
            let mut left_prop = match lb9_left {
                Some(p) => p,
                None => self.get_linebreak_property(left_codepoint),
            };
            let after_zwj = lb8a_after_lb9 || (lb9_left.is_none() && left_prop == ZWJ);
            self.advance_iter();
            let right_idx = match self.current {
                Some(k) => k,
                None => {
                    return Some(self.len);
                },
            };
            let right_codepoint = self.chars[right_idx].1;
            let right_prop = self.get_linebreak_property(right_codepoint);
            if (right_prop == CM || (right_prop == ZWJ && self.options.strictness
                != LineBreakStrictness::Anywhere)) && left_prop != BK && left_prop != CR && left_prop
                != LF && left_prop != NL && left_prop != SP && left_prop != ZW {
                lb9_left = Some(left_prop);
                lb8a_after_lb9 = right_prop == ZWJ;
                continue ;
            } else {
                lb9_left = None;
                lb8a_after_lb9 = false;
            }
            if self.options.word_option == LineBreakWordOption::BreakAll && (left_prop == AL
                || left_prop == NU || left_prop == SA) {
                left_prop = ID;
            } else if self.options.word_option == LineBreakWordOption::KeepAll
                && is_typographic_letter(left_prop) && is_typographic_letter(right_prop) {
                continue ;
            }
            match self.options.strictness {
                LineBreakStrictness::Normal => {
                    if is_break_by_normal(right_codepoint, self.options.ja_zh) && !after_zwj {
                        proof {
                            self.lemma_last_break_boundary();
                        }
                        return self.get_current_position();
                    }
                },
                LineBreakStrictness::Loose => {
                    match is_break_utf32_by_loose(
                        right_codepoint,
                        left_prop,
                        right_prop,
                        self.options.ja_zh,
                    ) {
                        Some(breakable) => {
                            if breakable && !after_zwj {
                                proof {
                                    self.lemma_last_break_boundary();
                                }
                                return self.get_current_position();
                            }
                            continue ;
                        },
                        None => {},
                    }
                },
                LineBreakStrictness::Anywhere => {
                    proof {
                        self.lemma_last_break_boundary();
                    }
                    return self.get_current_position();
                },
                LineBreakStrictness::Strict => {},
            }
            if self.options.word_option != LineBreakWordOption::BreakAll && self.use_complex_breaking(
                left_codepoint,
            ) && self.use_complex_breaking(right_codepoint) {
                let result = self.line_handle_complex_language(left_idx);
                if result.is_some() {
                    proof {
                        self.lemma_last_break_boundary();
                    }
                    return result;
                }
            }
            match self.data.get_break_state_from_table(left_prop, right_prop) {
                BreakState::Break | BreakState::NoMatch => {
                    if after_zwj {
                        continue ;
                    } else {
                        proof {
                            self.lemma_last_break_boundary();
                        }
                        return self.get_current_position();
                    }
                },
                BreakState::Keep => continue ,
                BreakState::Index(i) | BreakState::Intermediate(i) => {
                    match self.match_longer_rule(i, right_idx, right_prop, after_zwj, lb8a_after_lb9) {
                        Some(r) => {
                            proof {
                                self.lemma_last_break_boundary();
                            }
                            return r;
                        },
                        None => {
                            continue ;
                        },
                    }
                },
            }
        }
    }

    /// Moves the cursor to the code point at `k`, or past the end for `k == n`.
    fn seek(&mut self, k: usize)
        requires
            k <= old(self).chars@.len(),
        ensures
            final(self).same_text(old(self)),
            final(self).empty_reported == old(self).empty_reported,
            final(self).result_cache == old(self).result_cache,
            k < old(self).chars@.len() ==> final(self).current == Some(k) && final(self).next_index
                == k + 1,
            k == old(self).chars@.len() ==> final(self).current is None && final(self).next_index
                == k,
    {
        if k < self.chars.len() {
            self.current = Some(k);
            self.next_index = k + 1;
        } else {
            self.current = None;
            self.next_index = k;
        }
    }
}

/// The iterator's cursor before the first call of `next`.
pub open spec fn fresh_iterator<'data, C: ComplexSegmenter>(it: LineBreakIterator<'data, C>) -> bool {
    it.wf() && !it.started()
}

impl<'data, C: ComplexSegmenter> LineBreakIterator<'data, C> {
    /// A fresh iterator over decoded code points.
    fn from_chars(
        chars: Vec<(usize, u32)>,
        kind: LineBreakType,
        len: usize,
        data: &'data RuleBreakData,
        options: ResolvedLineBreakOptions,
        complex: &'data C,
    ) -> (r: Self)
        requires
            positions_ok(chars@, len as int),
        ensures
            r.wf(),
            !r.started(),
            r.cache_empty(),
            r.spec_chars() == chars@,
            r.spec_len() == len,
            r.spec_kind() == kind,
            r.spec_data() == *data,
            r.spec_options() == options,
    {
        LineBreakIterator {
            chars,
            kind,
            len,
            next_index: 0,
            current: None,
            empty_reported: false,
            result_cache: Vec::new(),
            data,
            options,
            complex,
        }
    }

    /// All the breaks, in order: 0 first, the length of the text last, and
    /// increasing offsets of code points between; for the empty text, the one
    /// break 0.
    pub fn collect_breaks(self) -> (r: Vec<usize>)
        requires
            self.wf(),
            !self.started(),
        ensures
            r@.len() >= 1,
            r@[0] == 0,
            r@.last() == self.spec_len(),
            forall|i: int, j: int| 0 <= i < j < r@.len() ==> r@[i] < r@[j],
            forall|i: int| 0 <= i < r@.len() ==> #[trigger] self.is_boundary(r@[i] as int),
    {
        let ghost text = self;
        let mut it = self;
        let mut r: Vec<usize> = Vec::new();
        let first = it.next();
        r.push(first.unwrap());
        proof {
            it.lemma_last_break_boundary();
            assert(it.spec_chars() == text.spec_chars() && it.spec_len() == text.spec_len());
        }
        while !it.finished_now()
            invariant
                it.wf(),
                it.same_text(&text),
                it.started(),
                r@.len() >= 1,
                r@[0] == 0,
                r@.last() == it.last_break(),
                it.finished() ==> r@.last() == text.spec_len(),
                forall|i: int, j: int| 0 <= i < j < r@.len() ==> r@[i] < r@[j],
                forall|i: int| 0 <= i < r@.len() ==> #[trigger] text.is_boundary(r@[i] as int),
            decreases it.remaining(),
        {
            let b = it.next();
            let b = b.unwrap();
            proof {
                it.lemma_last_break_boundary();
                assert(it.spec_chars() == text.spec_chars() && it.spec_len() == text.spec_len());
            }
            r.push(b);
        }
        r
    }

    /// Whether the last break has been reported.
    fn finished_now(&self) -> (r: bool)
        requires
            self.wf(),
            self.started(),
        ensures
            r == self.finished(),
    {
        self.current.is_none()
    }
}

/// Line breaking with owned data: the rule table, the complex-script
/// segmenter, and the options.
pub struct LineSegmenter<C> {
    options: ResolvedLineBreakOptions,
    data: RuleBreakData,
    complex: C,
}

/// Line breaking with borrowed data; it makes the iterators.
pub struct LineSegmenterBorrowed<'data, C> {
    options: ResolvedLineBreakOptions,
    data: &'data RuleBreakData,
    complex: &'data C,
}

impl<C: ComplexSegmenter> LineSegmenter<C> {
    /// A segmenter with the given data, complex-script segmenter and options.
    pub fn new(data: RuleBreakData, complex: C, options: LineBreakOptions) -> (r: Self)
        ensures
            r.spec_options() == resolve_options(options),
            r.spec_data() == data,
    {
        LineSegmenter { options: ResolvedLineBreakOptions::from(options), data, complex }
    }

    pub closed spec fn spec_options(&self) -> ResolvedLineBreakOptions {
        self.options
    }

    pub closed spec fn spec_data(&self) -> RuleBreakData {
        self.data
    }

    /// The borrowed form, which makes the iterators.
    pub fn as_borrowed(&self) -> (r: LineSegmenterBorrowed<'_, C>)
        ensures
            r.spec_options() == self.spec_options(),
            r.spec_data() == self.spec_data(),
    {
        LineSegmenterBorrowed { options: self.options, data: &self.data, complex: &self.complex }
    }
}

impl<'data, C: ComplexSegmenter> LineSegmenterBorrowed<'data, C> {
    pub closed spec fn spec_options(&self) -> ResolvedLineBreakOptions {
        self.options
    }

    pub closed spec fn spec_data(&self) -> RuleBreakData {
        *self.data
    }

    /// The breaks of a `str`, as byte offsets.
    pub fn segment_str(&self, input: &str) -> (r: LineBreakIterator<'data, C>)
        ensures
            r.wf(),
            !r.started(),
            r.spec_len() == input.spec_bytes().len(),
            r.spec_chars().len() == input@.len(),
            forall|i: int|
                0 <= i < input@.len() ==> #[trigger] r.spec_chars()[i] == (
                    encode_utf8(input@.subrange(0, i)).len() as usize,
                    input@[i] as u32,
                ),
            r.cache_empty(),
            r.spec_kind() == LineBreakType::Utf8,
            r.spec_data() == self.spec_data(),
            r.spec_options() == self.spec_options(),
    {
        let indices = char_indices_of(input);
        let len = input.as_bytes().len();
        let mut chars: Vec<(usize, u32)> = Vec::new();
        let mut i: usize = 0;
        while i < indices.len()
            invariant
                indices@.len() == input@.len(),
                forall|j: int| 0 <= j < indices@.len() ==> #[trigger] indices@[j].1 == input@[j],
                i <= indices@.len(),
                chars@.len() == i,
                forall|j: int| 0 <= j < i ==> #[trigger] chars@[j] == (indices@[j].0, indices@[j].1 as u32),
            decreases indices@.len() - i,
        {
            let (p, c) = indices[i];
            chars.push((p, c as u32));
            i = i + 1;
        }
        LineBreakIterator::from_chars(chars, LineBreakType::Utf8, len, self.data, self.options, self.complex)
    }

    /// The breaks of bytes that may not be UTF-8, as byte offsets; a bad
    /// sequence reads as U+FFFD.
    pub fn segment_utf8(&self, input: &[u8]) -> (r: LineBreakIterator<'data, C>)
        ensures
            r.wf(),
            !r.started(),
            r.spec_len() == input@.len(),
            r.spec_chars().len() == utf8_lossy_indices(input@).len(),
            forall|i: int|
                0 <= i < r.spec_chars().len() ==> #[trigger] r.spec_chars()[i] == (
                    utf8_lossy_indices(input@)[i].0,
                    utf8_lossy_indices(input@)[i].1 as u32,
                ),
            r.cache_empty(),
            r.spec_kind() == LineBreakType::PotentiallyIllFormedUtf8,
            r.spec_data() == self.spec_data(),
            r.spec_options() == self.spec_options(),
    {
        let indices = utf8_char_indices(input);
        let mut chars: Vec<(usize, u32)> = Vec::new();
        let mut i: usize = 0;
        while i < indices.len()
            invariant
                i <= indices@.len(),
                chars@.len() == i,
                forall|j: int| 0 <= j < i ==> #[trigger] chars@[j] == (indices@[j].0, indices@[j].1 as u32),
            decreases indices@.len() - i,
        {
            let (p, c) = indices[i];
            chars.push((p, c as u32));
            i = i + 1;
        }
        LineBreakIterator::from_chars(chars, LineBreakType::PotentiallyIllFormedUtf8, input.len(), self.data, self.options, self.complex)
    }

    /// The breaks of Latin-1 text, one byte per code point.
    pub fn segment_latin1(&self, input: &[u8]) -> (r: LineBreakIterator<'data, C>)
        ensures
            r.wf(),
            !r.started(),
            r.spec_len() == input@.len(),
            r.spec_chars().len() == input@.len(),
            forall|i: int| 0 <= i < input@.len() ==> #[trigger] r.spec_chars()[i] == (i as usize, input@[i] as u32),
            r.cache_empty(),
            r.spec_kind() == LineBreakType::Latin1,
            r.spec_data() == self.spec_data(),
            r.spec_options() == self.spec_options(),
    {
        let mut chars: Vec<(usize, u32)> = Vec::new();
        let mut i: usize = 0;
        while i < input.len()
            invariant
                i <= input@.len(),
                chars@.len() == i,
                forall|j: int| 0 <= j < i ==> #[trigger] chars@[j] == (j as usize, input@[j] as u32),
            decreases input@.len() - i,
        {
            chars.push((i, input[i] as u32));
            i = i + 1;
        }
        LineBreakIterator::from_chars(chars, LineBreakType::Latin1, input.len(), self.data, self.options, self.complex)
    }

    /// The breaks of UTF-16 text, as code-unit offsets; a surrogate pair is
    /// one code point, and a lone surrogate reads as itself.
    pub fn segment_utf16(&self, input: &[u16]) -> (r: LineBreakIterator<'data, C>)
        ensures
            r.wf(),
            !r.started(),
            r.spec_len() == input@.len(),
            decodes_utf16(input@, r.spec_chars()),
            r.cache_empty(),
            r.spec_kind() == LineBreakType::Utf16,
            r.spec_data() == self.spec_data(),
            r.spec_options() == self.spec_options(),
    {
        let chars = utf16_indices(input);
        LineBreakIterator::from_chars(chars, LineBreakType::Utf16, input.len(), self.data, self.options, self.complex)
    }
}

/// Whether a code unit is a leading surrogate.
pub open spec fn is_lead_surrogate(u: u16) -> bool {
    0xD800 <= u <= 0xDBFF
}

/// Whether a code unit is a trailing surrogate.
pub open spec fn is_trail_surrogate(u: u16) -> bool {
    0xDC00 <= u <= 0xDFFF
}

/// The code point of a surrogate pair.
pub open spec fn pair_code_point(lead: u16, trail: u16) -> u32 {
    (((lead - 0xD800) * 0x400) + (trail - 0xDC00) + 0x10000) as u32
}

/// Whether each code point starts at its offset: a surrogate pair reads as
/// the code point it encodes, any other unit as itself.
pub open spec fn decodes_utf16(units: Seq<u16>, chars: Seq<(usize, u32)>) -> bool {
    forall|k: int| 0 <= k < chars.len() ==> {
        let p = #[trigger] chars[k].0 as int;
        let u = units[p];
        if is_lead_surrogate(u) && p + 1 < units.len() && is_trail_surrogate(units[p + 1]) {
            chars[k].1 == pair_code_point(u, units[p + 1])
        } else {
            chars[k].1 == u as u32
        }
    }
}

/// The code points of UTF-16 text with their offsets.
pub fn utf16_indices(input: &[u16]) -> (r: Vec<(usize, u32)>)
    ensures
        positions_ok(r@, input@.len() as int),
        decodes_utf16(input@, r@),
{
    let n = input.len();
    let mut r: Vec<(usize, u32)> = Vec::new();
    let mut i: usize = 0;
    while i < n
        invariant
            n == input@.len(),
            i <= n,
            r@.len() == 0 <==> i == 0,
            r@.len() > 0 ==> r@[0].0 == 0,
            forall|k: int| 0 <= k < r@.len() ==> #[trigger] r@[k].0 < i,
            forall|a: int, b: int| 0 <= a < b < r@.len() ==> r@[a].0 < r@[b].0,
            forall|k: int| 0 <= k < r@.len() ==> {
                let p = #[trigger] r@[k].0 as int;
                let u = input@[p];
                if is_lead_surrogate(u) && p + 1 < input@.len() && is_trail_surrogate(input@[p + 1]) {
                    r@[k].1 == pair_code_point(u, input@[p + 1])
                } else {
                    r@[k].1 == u as u32
                }
            },
        decreases n - i,
    {
        let u = input[i];
        if 0xD800 <= u && u <= 0xDBFF && i + 1 < n && 0xDC00 <= input[i + 1] && input[i + 1] <= 0xDFFF {
            let t = input[i + 1];
            let cp: u32 = ((u as u32 - 0xD800) * 0x400) + (t as u32 - 0xDC00) + 0x10000;
            r.push((i, cp));
            i = i + 2;
        } else {
            r.push((i, u as u32));
            i = i + 1;
        }
    }
    r
}

/// Relies on `str::char_indices`: each character of the string with the
/// byte offset where it starts. Offsets start at 0, grow, and lie within the
/// string, which has characters exactly when it has bytes.
#[verifier::external_body]
fn char_indices_of(s: &str) -> (r: Vec<(usize, char)>)
    ensures
        r@.len() == s@.len(),
        forall|i: int| 0 <= i < r@.len() ==> #[trigger] r@[i].1 == s@[i],
        forall|i: int|
            0 <= i < r@.len() ==> #[trigger] r@[i].0 == encode_utf8(s@.subrange(0, i)).len(),
        r@.len() == 0 <==> s.spec_bytes().len() == 0,
        r@.len() > 0 ==> r@[0].0 == 0,
        forall|i: int| 0 <= i < r@.len() ==> #[trigger] r@[i].0 < s.spec_bytes().len(),
        forall|i: int, j: int| 0 <= i < j < r@.len() ==> r@[i].0 < r@[j].0,
{
    s.char_indices().collect()
}

/// What `utf8_iter::Utf8CharIndices` yields for some bytes.
pub uninterp spec fn utf8_lossy_indices(b: Seq<u8>) -> Seq<(usize, char)>;

/// Relies on `utf8_iter::Utf8CharIndices`: the characters of possibly
/// ill-formed UTF-8 with the offsets where they start, a bad sequence read as
/// U+FFFD. Each character takes at least one byte, so the offsets start at 0
/// and grow, and there are characters exactly when there are bytes.
#[verifier::external_body]
fn utf8_char_indices(b: &[u8]) -> (r: Vec<(usize, char)>)
    ensures
        r@ == utf8_lossy_indices(b@),
        r@.len() == 0 <==> b@.len() == 0,
        r@.len() > 0 ==> r@[0].0 == 0,
        forall|i: int| 0 <= i < r@.len() ==> #[trigger] r@[i].0 < b@.len(),
        forall|i: int, j: int| 0 <= i < j < r@.len() ==> r@[i].0 < r@[j].0,
{
    Utf8CharIndices::new(b).collect()
}

} // verus!
