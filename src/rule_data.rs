//! The line-break classes, the rule table that the line breaker consults, and
//! the rules for the CSS `line-break` and `word-break` options.

use vstd::prelude::*;

verus! {

// Line-break classes, as the rule table numbers them.
pub const UNKNOWN: u8 = 0;
pub const AI: u8 = 1;
pub const AK: u8 = 2;
pub const AL: u8 = 3;
pub const AL_DOTTED_CIRCLE: u8 = 4;
pub const AP: u8 = 5;
pub const AS: u8 = 6;
pub const B2: u8 = 7;
pub const BA: u8 = 8;
pub const BB: u8 = 9;
pub const BK: u8 = 10;
pub const CB: u8 = 11;
pub const CJ: u8 = 12;
pub const CL: u8 = 13;
pub const CM: u8 = 14;
pub const CP: u8 = 15;
pub const CR: u8 = 16;
pub const EB: u8 = 17;
pub const EM: u8 = 18;
pub const EX: u8 = 19;
pub const GL: u8 = 20;
pub const H2: u8 = 21;
pub const H3: u8 = 22;
pub const HL: u8 = 23;
pub const HY: u8 = 24;
pub const ID: u8 = 25;
pub const ID_CN: u8 = 26;
pub const IN: u8 = 27;
pub const IS: u8 = 28;
pub const JL: u8 = 29;
pub const JT: u8 = 30;
pub const JV: u8 = 31;
pub const LF: u8 = 32;
pub const NL: u8 = 33;
pub const NS: u8 = 34;
pub const NU: u8 = 35;
pub const OP_EA: u8 = 36;
pub const OP_OP30: u8 = 37;
pub const PO: u8 = 38;
pub const PO_EAW: u8 = 39;
pub const PR: u8 = 40;
pub const PR_EAW: u8 = 41;
pub const QU: u8 = 42;
pub const QU_PF: u8 = 43;
pub const QU_PI: u8 = 44;
pub const RI: u8 = 45;
pub const SA: u8 = 46;
pub const SP: u8 = 47;
pub const SY: u8 = 48;
pub const VF: u8 = 49;
pub const VI: u8 = 50;
pub const WJ: u8 = 51;
pub const XX: u8 = 52;
pub const ZW: u8 = 53;
pub const ZWJ: u8 = 54;

/// The verdict of the rule table for a pair of classes.
#[derive(Debug, Clone, Copy, PartialEq, Eq, Structural)]
pub enum BreakState {
    /// A break opportunity.
    Break,
    /// No break.
    Keep,
    /// A longer rule failed to match: fall back to the last position known good.
    NoMatch,
    /// A longer rule goes on from this state; the fallback position stays.
    Intermediate(u8),
    /// A longer rule goes on from this state.
    Index(u8),
}

/// The strictness of line breaking, as the CSS `line-break` property names it.
#[derive(Copy, Clone, PartialEq, Eq, Debug, Structural)]
pub enum LineBreakStrictness {
    /// The least restrictive rules.
    Loose,
    /// The most common rules.
    Normal,
    /// The rules of the Unicode Line Breaking Algorithm; the default.
    Strict,
    /// A break opportunity at every code point.
    Anywhere,
}

/// Break opportunities between letters, as the CSS `word-break` property
/// names them.
#[derive(Copy, Clone, PartialEq, Eq, Debug, Structural)]
pub enum LineBreakWordOption {
    /// Words break by their usual rules; the default.
    Normal,
    /// Breaks are allowed within words.
    BreakAll,
    /// Breaks are forbidden within words.
    KeepAll,
}

impl Default for LineBreakStrictness {
    fn default() -> (r: Self)
        ensures
            r == LineBreakStrictness::Strict,
    {
        LineBreakStrictness::Strict
    }
}

impl Default for LineBreakWordOption {
    fn default() -> (r: Self)
        ensures
            r == LineBreakWordOption::Normal,
    {
        LineBreakWordOption::Normal
    }
}

/// The code points `start..=end` have the class `class`.
#[derive(Debug, Clone, Copy, PartialEq, Eq)]
pub struct PropertyRange {
    pub start: u32,
    pub end: u32,
    pub class: u8,
}

/// The class of a code point in a list of ranges: that of the first range
/// holding it, or `UNKNOWN`.
pub open spec fn class_in(ranges: Seq<PropertyRange>, cp: u32) -> u8
    decreases ranges.len(),
{
    if ranges.len() == 0 {
        UNKNOWN
    } else if ranges[0].start <= cp <= ranges[0].end {
        ranges[0].class
    } else {
        class_in(ranges.drop_first(), cp)
    }
}

/// The data of the line breaker: the class of each code point and the rule
/// table over pairs of classes.
#[derive(Debug, Clone)]
pub struct RuleBreakData {
    /// The classes of code points; the code points of no range are `UNKNOWN`.
    pub property_table: Vec<PropertyRange>,
    /// The verdicts, row by row: `(left, right)` is at
    /// `left * property_count + right`.
    pub break_state_table: Vec<BreakState>,
    /// The number of columns of the rule table.
    pub property_count: u8,
    /// States up to this one are classes of code points; those above are
    /// states of longer rules.
    pub last_codepoint_property: u8,
    /// The class of the start of text.
    pub sot_property: u8,
    /// The class of the end of text.
    pub eot_property: u8,
}

/// The class of a code point under the strictness and word options: `CJ` is
/// `ID` for `BreakAll`, `Loose` and `Normal`, and `NS` otherwise (the table's
/// own `CJ` row).
pub open spec fn class_with_rule(
    raw: u8,
    strictness: LineBreakStrictness,
    word_option: LineBreakWordOption,
) -> u8 {
    if (word_option == LineBreakWordOption::BreakAll || strictness == LineBreakStrictness::Loose
        || strictness == LineBreakStrictness::Normal) && raw == CJ {
        ID
    } else {
        raw
    }
}

/// The verdict of the table for a pair, `Keep` where the table has no entry.
pub open spec fn state_in(data: RuleBreakData, left: u8, right: u8) -> BreakState {
    let idx = left as int * data.property_count as int + right as int;
    if idx < data.break_state_table@.len() {
        data.break_state_table@[idx]
    } else {
        BreakState::Keep
    }
}

impl RuleBreakData {
    /// The class of a code point as the table gives it.
    pub fn property(&self, codepoint: u32) -> (r: u8)
        ensures
            r == class_in(self.property_table@, codepoint),
    {
        let n = self.property_table.len();
        let mut i: usize = 0;
        assert(self.property_table@.subrange(0, n as int) =~= self.property_table@);
        while i < n
            invariant
                n == self.property_table@.len(),
                i <= n,
                class_in(self.property_table@, codepoint) == class_in(
                    self.property_table@.subrange(i as int, n as int),
                    codepoint,
                ),
            decreases n - i,
        {
            let range = self.property_table[i];
            assert(self.property_table@.subrange(i + 1, n as int) =~= self.property_table@.subrange(
                i as int,
                n as int,
            ).drop_first());
            if range.start <= codepoint && codepoint <= range.end {
                return range.class;
            }
            i = i + 1;
        }
        UNKNOWN
    }

    /// The class of a code point under the strictness and word options.
    pub fn get_linebreak_property_utf32_with_rule(
        &self,
        codepoint: u32,
        strictness: LineBreakStrictness,
        word_option: LineBreakWordOption,
    ) -> (r: u8)
        ensures
            r == class_with_rule(class_in(self.property_table@, codepoint), strictness, word_option),
    {
        let prop = self.property(codepoint);
        if word_option == LineBreakWordOption::BreakAll || strictness == LineBreakStrictness::Loose
            || strictness == LineBreakStrictness::Normal {
            return if prop == CJ {
                ID
            } else {
                prop
            };
        }
        prop
    }

    /// The verdict of the rule table for a pair of states or classes.
    pub fn get_break_state_from_table(&self, left: u8, right: u8) -> (r: BreakState)
        ensures
            r == state_in(*self, left, right),
    {
        let l = left as usize;
        let c = self.property_count as usize;
        assert(l * c <= 255 * 255) by (nonlinear_arith)
            requires
                l <= 255,
                c <= 255,
        ;
        let idx: usize = l * c + (right as usize);
        if idx < self.break_state_table.len() {
            self.break_state_table[idx]
        } else {
            BreakState::Keep
        }
    }

    /// Whether a code point belongs to a script written without spaces
    /// between words (class `SA`).
    pub fn use_complex_breaking_utf32(&self, codepoint: u32) -> (r: bool)
        ensures
            r == (class_in(self.property_table@, codepoint) == SA),
    {
        let line_break_property = self.get_linebreak_property_utf32_with_rule(
            codepoint,
            LineBreakStrictness::Strict,
            LineBreakWordOption::Normal,
        );
        line_break_property == SA
    }
}

/// The decision of the `Loose` strictness for a pair, where it makes one.
pub open spec fn loose_rule(right_codepoint: u32, left_prop: u8, right_prop: u8, ja_zh: bool) -> Option<bool> {
    let by_class = if right_prop == BA {
        if left_prop == ID && (right_codepoint == 0x2010 || right_codepoint == 0x2013) {
            Some(true)
        } else {
            None
        }
    } else if right_prop == NS {
        if right_codepoint == 0x301C || right_codepoint == 0x30A0 {
            Some(ja_zh)
        } else if right_codepoint == 0x3005 || right_codepoint == 0x303B || right_codepoint == 0x309D
            || right_codepoint == 0x309E || right_codepoint == 0x30FD || right_codepoint == 0x30FE {
            Some(true)
        } else if right_codepoint == 0x30FB || right_codepoint == 0xFF1A || right_codepoint == 0xFF1B
            || right_codepoint == 0xFF65 || right_codepoint == 0x203C || (0x2047 <= right_codepoint
            <= 0x2049) {
            Some(ja_zh)
        } else {
            None
        }
    } else if right_prop == IN {
        Some(true)
    } else if right_prop == EX {
        if right_codepoint == 0xFF01 || right_codepoint == 0xFF1F {
            Some(ja_zh)
        } else {
            None
        }
    } else {
        None
    };
    if by_class is Some {
        by_class
    } else if right_prop == PO_EAW || left_prop == PR_EAW {
        Some(ja_zh)
    } else {
        None
    }
}

/// Under `Loose` strictness: whether there is a break before `right_codepoint`,
/// or `None` where the loose rules say nothing.
///
/// Breaks come before hyphens after ideographs, before iteration marks, and
/// between inseparable characters; before some CJK hyphen-like and centred
/// punctuation, before wide suffixes and after wide prefixes, only for
/// Japanese and Chinese text.
pub fn is_break_utf32_by_loose(
    right_codepoint: u32,
    left_prop: u8,
    right_prop: u8,
    ja_zh: bool,
) -> (r: Option<bool>)
    ensures
        r == loose_rule(right_codepoint, left_prop, right_prop, ja_zh),
{
    if right_prop == BA {
        if left_prop == ID && (right_codepoint == 0x2010 || right_codepoint == 0x2013) {
            return Some(true);
        }
    } else if right_prop == NS {
        if right_codepoint == 0x301C || right_codepoint == 0x30A0 {
            return Some(ja_zh);
        }
        if right_codepoint == 0x3005 || right_codepoint == 0x303B || right_codepoint == 0x309D
            || right_codepoint == 0x309E || right_codepoint == 0x30FD || right_codepoint == 0x30FE {
            return Some(true);
        }
        if right_codepoint == 0x30FB || right_codepoint == 0xFF1A || right_codepoint == 0xFF1B
            || right_codepoint == 0xFF65 || right_codepoint == 0x203C || (0x2047 <= right_codepoint
            && right_codepoint <= 0x2049) {
            return Some(ja_zh);
        }
    } else if right_prop == IN {
        return Some(true);
    } else if right_prop == EX {
        if right_codepoint == 0xFF01 || right_codepoint == 0xFF1F {
            return Some(ja_zh);
        }
    }
    if right_prop == PO_EAW {
        return Some(ja_zh);
    }
    if left_prop == PR_EAW {
        return Some(ja_zh);
    }
    None
}

/// Under `Normal` strictness: whether the code point is one of the CJK
/// hyphen-like characters that break before them in Japanese and Chinese.
pub fn is_break_by_normal(codepoint: u32, ja_zh: bool) -> (r: bool)
    ensures
        r == ((codepoint == 0x301C || codepoint == 0x30A0) && ja_zh),
{
    if codepoint == 0x301C || codepoint == 0x30A0 {
        ja_zh
    } else {
        false
    }
}

} // verus!
