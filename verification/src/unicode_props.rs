//! Unicode properties of characters, asked of `seshat` and of `char`'s methods one character at
//! a time, and the names by which a class refers to them.
use vstd::prelude::*;
use crate::character_class::chars_equal;
use crate::text::str_chars;
use seshat::unicode::props::Gc;
use seshat::unicode::Ucd;

verus! {

/// A Unicode property of characters.
#[derive(Debug, Clone, Copy, PartialEq, Eq, Structural)]
pub enum UcdProperty {
    /// `Alphabetic`
    Alphabetic,
    /// `ASCII_Hex_Digit`
    AsciiHexDigit,
    /// `Bidi_Control`
    BidiControl,
    /// `Case_Ignorable`
    CaseIgnorable,
    /// `Cased`
    Cased,
    /// `Composition_Exclusion`
    CompositionExclusion,
    /// `Dash`
    Dash,
    /// `Default_Ignorable_Code_Point`
    DefaultIgnorableCodePoint,
    /// `Deprecated`
    Deprecated,
    /// `Diacritic`
    Diacritic,
    /// `Emoji_Component`
    EmojiComponent,
    /// `Emoji_Modifier_Base`
    EmojiModifierBase,
    /// `Emoji_Modifier`
    EmojiModifier,
    /// `Emoji_Presentation`
    EmojiPresentation,
    /// `Emoji`
    Emoji,
    /// `Extended_Pictographic`
    ExtendedPictographic,
    /// `Extender`
    Extender,
    /// `Full_Composition_Exclusion`
    FullCompositionExclusion,
    /// `Grapheme_Extend`
    GraphemeExtend,
    /// `Hex_Digit`
    HexDigit,
    /// `Hyphen`
    Hyphen,
    /// `ID_Continue`
    IdContinue,
    /// `ID_Start`
    IdStart,
    /// `Ideographic`
    Ideographic,
    /// `IDS_Binary_Operator`
    IdsBinaryOperator,
    /// `IDS_Trinary_Operator`
    IdsTrinaryOperator,
    /// `Join_Control`
    JoinControl,
    /// `Logical_Order_Exception`
    LogicalOrderException,
    /// `Lowercase`
    Lowercase,
    /// `Math`
    Math,
    /// `Noncharacter_Code_Point`
    NoncharacterCodePoint,
    /// `Other_Alphabetic`
    OtherAlphabetic,
    /// `Other_Default_Ignorable_Code_Point`
    OtherDefaultIgnorableCodePoint,
    /// `Other_Grapheme_Extend`
    OtherGraphemeExtend,
    /// `Other_ID_Continue`
    OtherIdContinue,
    /// `Other_ID_Start`
    OtherIdStart,
    /// `Other_Lowercase`
    OtherLowercase,
    /// `Other_Math`
    OtherMath,
    /// `Other_Uppercase`
    OtherUppercase,
    /// `Pattern_Syntax`
    PatternSyntax,
    /// `Pattern_White_Space`
    PatternWhiteSpace,
    /// `Prepended_Concatenation_Mark`
    PrependedConcatenationMark,
    /// `Quotation_Mark`
    QuotationMark,
    /// `Radical`
    Radical,
    /// `Regional_Indicator`
    RegionalIndicator,
    /// `Sentence_Terminal`
    SentenceTerminal,
    /// `Soft_Dotted`
    SoftDotted,
    /// `Terminal_Punctuation`
    TerminalPunctuation,
    /// `Unified_Ideograph`
    UnifiedIdeograph,
    /// `Uppercase`
    Uppercase,
    /// `Variation_Selector`
    VariationSelector,
    /// `White_Space`
    WhiteSpace,
    /// `XID_Continue`
    XidContinue,
    /// `XID_Start`
    XidStart,
    /// `char::is_alphabetic`
    CharAlphabetic,
    /// `char::is_numeric`
    CharNumeric,
    /// `char::is_alphanumeric`
    CharAlphanumeric,
    /// `char::is_whitespace`
    CharWhitespace,
    /// `char::is_lowercase`
    CharLowercase,
    /// `char::is_uppercase`
    CharUppercase,
    /// `char::is_control`
    CharControl,
    /// The general category `Pc`, connector punctuation.
    ConnectorPunctuation,
    /// The general category `Mn`, non-spacing marks.
    NonspacingMark,
}

/// Names the Unicode `Alphabetic` property of a character as `seshat` gives it.
pub uninterp spec fn prop_alphabetic(c: char) -> bool;

/// Whether `c` has the `Alphabetic` property: `seshat`'s `Ucd::alpha` for `char`, whose result
/// [prop_alphabetic] names.
#[verifier::external_body]
fn has_alphabetic(c: char) -> (r: bool)
    ensures
        r == prop_alphabetic(c),
{
    c.alpha()
}

/// Names the Unicode `ASCII_Hex_Digit` property of a character as `seshat` gives it.
pub uninterp spec fn prop_ascii_hex_digit(c: char) -> bool;

/// Whether `c` has the `ASCII_Hex_Digit` property: `seshat`'s `Ucd::ahex` for `char`, whose result
/// [prop_ascii_hex_digit] names.
#[verifier::external_body]
fn has_ascii_hex_digit(c: char) -> (r: bool)
    ensures
        r == prop_ascii_hex_digit(c),
{
    c.ahex()
}

/// Names the Unicode `Bidi_Control` property of a character as `seshat` gives it.
pub uninterp spec fn prop_bidi_control(c: char) -> bool;

/// Whether `c` has the `Bidi_Control` property: `seshat`'s `Ucd::bidi_c` for `char`, whose result
/// [prop_bidi_control] names.
#[verifier::external_body]
fn has_bidi_control(c: char) -> (r: bool)
    ensures
        r == prop_bidi_control(c),
{
    c.bidi_c()
}

/// Names the Unicode `Case_Ignorable` property of a character as `seshat` gives it.
pub uninterp spec fn prop_case_ignorable(c: char) -> bool;

/// Whether `c` has the `Case_Ignorable` property: `seshat`'s `Ucd::ci` for `char`, whose result
/// [prop_case_ignorable] names.
#[verifier::external_body]
fn has_case_ignorable(c: char) -> (r: bool)
    ensures
        r == prop_case_ignorable(c),
{
    c.ci()
}

/// Names the Unicode `Cased` property of a character as `seshat` gives it.
pub uninterp spec fn prop_cased(c: char) -> bool;

/// Whether `c` has the `Cased` property: `seshat`'s `Ucd::cased` for `char`, whose result
/// [prop_cased] names.
#[verifier::external_body]
fn has_cased(c: char) -> (r: bool)
    ensures
        r == prop_cased(c),
{
    c.cased()
}

/// Names the Unicode `Composition_Exclusion` property of a character as `seshat` gives it.
pub uninterp spec fn prop_composition_exclusion(c: char) -> bool;

/// Whether `c` has the `Composition_Exclusion` property: `seshat`'s `Ucd::ce` for `char`, whose result
/// [prop_composition_exclusion] names.
#[verifier::external_body]
fn has_composition_exclusion(c: char) -> (r: bool)
    ensures
        r == prop_composition_exclusion(c),
{
    c.ce()
}

/// Names the Unicode `Dash` property of a character as `seshat` gives it.
pub uninterp spec fn prop_dash(c: char) -> bool;

/// Whether `c` has the `Dash` property: `seshat`'s `Ucd::dash` for `char`, whose result
/// [prop_dash] names.
#[verifier::external_body]
fn has_dash(c: char) -> (r: bool)
    ensures
        r == prop_dash(c),
{
    c.dash()
}

/// Names the Unicode `Default_Ignorable_Code_Point` property of a character as `seshat` gives it.
pub uninterp spec fn prop_default_ignorable_code_point(c: char) -> bool;

/// Whether `c` has the `Default_Ignorable_Code_Point` property: `seshat`'s `Ucd::di` for `char`, whose result
/// [prop_default_ignorable_code_point] names.
#[verifier::external_body]
fn has_default_ignorable_code_point(c: char) -> (r: bool)
    ensures
        r == prop_default_ignorable_code_point(c),
{
    c.di()
}

/// Names the Unicode `Deprecated` property of a character as `seshat` gives it.
pub uninterp spec fn prop_deprecated(c: char) -> bool;

/// Whether `c` has the `Deprecated` property: `seshat`'s `Ucd::dep` for `char`, whose result
/// [prop_deprecated] names.
#[verifier::external_body]
fn has_deprecated(c: char) -> (r: bool)
    ensures
        r == prop_deprecated(c),
{
    c.dep()
}

/// Names the Unicode `Diacritic` property of a character as `seshat` gives it.
pub uninterp spec fn prop_diacritic(c: char) -> bool;

/// Whether `c` has the `Diacritic` property: `seshat`'s `Ucd::dia` for `char`, whose result
/// [prop_diacritic] names.
#[verifier::external_body]
fn has_diacritic(c: char) -> (r: bool)
    ensures
        r == prop_diacritic(c),
{
    c.dia()
}

/// Names the Unicode `Emoji_Component` property of a character as `seshat` gives it.
pub uninterp spec fn prop_emoji_component(c: char) -> bool;

/// Whether `c` has the `Emoji_Component` property: `seshat`'s `Ucd::ecomp` for `char`, whose result
/// [prop_emoji_component] names.
#[verifier::external_body]
fn has_emoji_component(c: char) -> (r: bool)
    ensures
        r == prop_emoji_component(c),
{
    c.ecomp()
}

/// Names the Unicode `Emoji_Modifier_Base` property of a character as `seshat` gives it.
pub uninterp spec fn prop_emoji_modifier_base(c: char) -> bool;

/// Whether `c` has the `Emoji_Modifier_Base` property: `seshat`'s `Ucd::ebase` for `char`, whose result
/// [prop_emoji_modifier_base] names.
#[verifier::external_body]
fn has_emoji_modifier_base(c: char) -> (r: bool)
    ensures
        r == prop_emoji_modifier_base(c),
{
    c.ebase()
}

/// Names the Unicode `Emoji_Modifier` property of a character as `seshat` gives it.
pub uninterp spec fn prop_emoji_modifier(c: char) -> bool;

/// Whether `c` has the `Emoji_Modifier` property: `seshat`'s `Ucd::emod` for `char`, whose result
/// [prop_emoji_modifier] names.
#[verifier::external_body]
fn has_emoji_modifier(c: char) -> (r: bool)
    ensures
        r == prop_emoji_modifier(c),
{
    c.emod()
}

/// Names the Unicode `Emoji_Presentation` property of a character as `seshat` gives it.
pub uninterp spec fn prop_emoji_presentation(c: char) -> bool;

/// Whether `c` has the `Emoji_Presentation` property: `seshat`'s `Ucd::epres` for `char`, whose result
/// [prop_emoji_presentation] names.
#[verifier::external_body]
fn has_emoji_presentation(c: char) -> (r: bool)
    ensures
        r == prop_emoji_presentation(c),
{
    c.epres()
}

/// Names the Unicode `Emoji` property of a character as `seshat` gives it.
pub uninterp spec fn prop_emoji(c: char) -> bool;

/// Whether `c` has the `Emoji` property: `seshat`'s `Ucd::emoji` for `char`, whose result
/// [prop_emoji] names.
#[verifier::external_body]
fn has_emoji(c: char) -> (r: bool)
    ensures
        r == prop_emoji(c),
{
    c.emoji()
}

/// Names the Unicode `Extended_Pictographic` property of a character as `seshat` gives it.
pub uninterp spec fn prop_extended_pictographic(c: char) -> bool;

/// Whether `c` has the `Extended_Pictographic` property: `seshat`'s `Ucd::ext_pict` for `char`, whose result
/// [prop_extended_pictographic] names.
#[verifier::external_body]
fn has_extended_pictographic(c: char) -> (r: bool)
    ensures
        r == prop_extended_pictographic(c),
{
    c.ext_pict()
}

/// Names the Unicode `Extender` property of a character as `seshat` gives it.
pub uninterp spec fn prop_extender(c: char) -> bool;

/// Whether `c` has the `Extender` property: `seshat`'s `Ucd::ext` for `char`, whose result
/// [prop_extender] names.
#[verifier::external_body]
fn has_extender(c: char) -> (r: bool)
    ensures
        r == prop_extender(c),
{
    c.ext()
}

/// Names the Unicode `Full_Composition_Exclusion` property of a character as `seshat` gives it.
pub uninterp spec fn prop_full_composition_exclusion(c: char) -> bool;

/// Whether `c` has the `Full_Composition_Exclusion` property: `seshat`'s `Ucd::comp_ex` for `char`, whose result
/// [prop_full_composition_exclusion] names.
#[verifier::external_body]
fn has_full_composition_exclusion(c: char) -> (r: bool)
    ensures
        r == prop_full_composition_exclusion(c),
{
    c.comp_ex()
}

/// Names the Unicode `Grapheme_Extend` property of a character as `seshat` gives it.
pub uninterp spec fn prop_grapheme_extend(c: char) -> bool;

/// Whether `c` has the `Grapheme_Extend` property: `seshat`'s `Ucd::gr_ext` for `char`, whose result
/// [prop_grapheme_extend] names.
#[verifier::external_body]
fn has_grapheme_extend(c: char) -> (r: bool)
    ensures
        r == prop_grapheme_extend(c),
{
    c.gr_ext()
}

/// Names the Unicode `Hex_Digit` property of a character as `seshat` gives it.
pub uninterp spec fn prop_hex_digit(c: char) -> bool;

/// Whether `c` has the `Hex_Digit` property: `seshat`'s `Ucd::hex` for `char`, whose result
/// [prop_hex_digit] names.
#[verifier::external_body]
fn has_hex_digit(c: char) -> (r: bool)
    ensures
        r == prop_hex_digit(c),
{
    c.hex()
}

/// Names the Unicode `Hyphen` property of a character as `seshat` gives it.
pub uninterp spec fn prop_hyphen(c: char) -> bool;

/// Whether `c` has the `Hyphen` property: `seshat`'s `Ucd::hyphen` for `char`, whose result
/// [prop_hyphen] names.
#[verifier::external_body]
fn has_hyphen(c: char) -> (r: bool)
    ensures
        r == prop_hyphen(c),
{
    c.hyphen()
}

/// Names the Unicode `ID_Continue` property of a character as `seshat` gives it.
pub uninterp spec fn prop_id_continue(c: char) -> bool;

/// Whether `c` has the `ID_Continue` property: `seshat`'s `Ucd::idc` for `char`, whose result
/// [prop_id_continue] names.
#[verifier::external_body]
fn has_id_continue(c: char) -> (r: bool)
    ensures
        r == prop_id_continue(c),
{
    c.idc()
}

/// Names the Unicode `ID_Start` property of a character as `seshat` gives it.
pub uninterp spec fn prop_id_start(c: char) -> bool;

/// Whether `c` has the `ID_Start` property: `seshat`'s `Ucd::ids` for `char`, whose result
/// [prop_id_start] names.
#[verifier::external_body]
fn has_id_start(c: char) -> (r: bool)
    ensures
        r == prop_id_start(c),
{
    c.ids()
}

/// Names the Unicode `Ideographic` property of a character as `seshat` gives it.
pub uninterp spec fn prop_ideographic(c: char) -> bool;

/// Whether `c` has the `Ideographic` property: `seshat`'s `Ucd::ideo` for `char`, whose result
/// [prop_ideographic] names.
#[verifier::external_body]
fn has_ideographic(c: char) -> (r: bool)
    ensures
        r == prop_ideographic(c),
{
    c.ideo()
}

/// Names the Unicode `IDS_Binary_Operator` property of a character as `seshat` gives it.
pub uninterp spec fn prop_ids_binary_operator(c: char) -> bool;

/// Whether `c` has the `IDS_Binary_Operator` property: `seshat`'s `Ucd::idsb` for `char`, whose result
/// [prop_ids_binary_operator] names.
#[verifier::external_body]
fn has_ids_binary_operator(c: char) -> (r: bool)
    ensures
        r == prop_ids_binary_operator(c),
{
    c.idsb()
}

/// Names the Unicode `IDS_Trinary_Operator` property of a character as `seshat` gives it.
pub uninterp spec fn prop_ids_trinary_operator(c: char) -> bool;

/// Whether `c` has the `IDS_Trinary_Operator` property: `seshat`'s `Ucd::idst` for `char`, whose result
/// [prop_ids_trinary_operator] names.
#[verifier::external_body]
fn has_ids_trinary_operator(c: char) -> (r: bool)
    ensures
        r == prop_ids_trinary_operator(c),
{
    c.idst()
}

/// Names the Unicode `Join_Control` property of a character as `seshat` gives it.
pub uninterp spec fn prop_join_control(c: char) -> bool;

/// Whether `c` has the `Join_Control` property: `seshat`'s `Ucd::join_c` for `char`, whose result
/// [prop_join_control] names.
#[verifier::external_body]
fn has_join_control(c: char) -> (r: bool)
    ensures
        r == prop_join_control(c),
{
    c.join_c()
}

/// Names the Unicode `Logical_Order_Exception` property of a character as `seshat` gives it.
pub uninterp spec fn prop_logical_order_exception(c: char) -> bool;

/// Whether `c` has the `Logical_Order_Exception` property: `seshat`'s `Ucd::loe` for `char`, whose result
/// [prop_logical_order_exception] names.
#[verifier::external_body]
fn has_logical_order_exception(c: char) -> (r: bool)
    ensures
        r == prop_logical_order_exception(c),
{
    c.loe()
}

/// Names the Unicode `Lowercase` property of a character as `seshat` gives it.
pub uninterp spec fn prop_lowercase(c: char) -> bool;

/// Whether `c` has the `Lowercase` property: `seshat`'s `Ucd::lower` for `char`, whose result
/// [prop_lowercase] names.
#[verifier::external_body]
fn has_lowercase(c: char) -> (r: bool)
    ensures
        r == prop_lowercase(c),
{
    c.lower()
}

/// Names the Unicode `Math` property of a character as `seshat` gives it.
pub uninterp spec fn prop_math(c: char) -> bool;

/// Whether `c` has the `Math` property: `seshat`'s `Ucd::math` for `char`, whose result
/// [prop_math] names.
#[verifier::external_body]
fn has_math(c: char) -> (r: bool)
    ensures
        r == prop_math(c),
{
    c.math()
}

/// Names the Unicode `Noncharacter_Code_Point` property of a character as `seshat` gives it.
pub uninterp spec fn prop_noncharacter_code_point(c: char) -> bool;

/// Whether `c` has the `Noncharacter_Code_Point` property: `seshat`'s `Ucd::nchar` for `char`, whose result
/// [prop_noncharacter_code_point] names.
#[verifier::external_body]
fn has_noncharacter_code_point(c: char) -> (r: bool)
    ensures
        r == prop_noncharacter_code_point(c),
{
    c.nchar()
}

/// Names the Unicode `Other_Alphabetic` property of a character as `seshat` gives it.
pub uninterp spec fn prop_other_alphabetic(c: char) -> bool;

/// Whether `c` has the `Other_Alphabetic` property: `seshat`'s `Ucd::oalpha` for `char`, whose result
/// [prop_other_alphabetic] names.
#[verifier::external_body]
fn has_other_alphabetic(c: char) -> (r: bool)
    ensures
        r == prop_other_alphabetic(c),
{
    c.oalpha()
}

/// Names the Unicode `Other_Default_Ignorable_Code_Point` property of a character as `seshat` gives it.
pub uninterp spec fn prop_other_default_ignorable_code_point(c: char) -> bool;

/// Whether `c` has the `Other_Default_Ignorable_Code_Point` property: `seshat`'s `Ucd::odi` for `char`, whose result
/// [prop_other_default_ignorable_code_point] names.
#[verifier::external_body]
fn has_other_default_ignorable_code_point(c: char) -> (r: bool)
    ensures
        r == prop_other_default_ignorable_code_point(c),
{
    c.odi()
}

/// Names the Unicode `Other_Grapheme_Extend` property of a character as `seshat` gives it.
pub uninterp spec fn prop_other_grapheme_extend(c: char) -> bool;

/// Whether `c` has the `Other_Grapheme_Extend` property: `seshat`'s `Ucd::ogr_ext` for `char`, whose result
/// [prop_other_grapheme_extend] names.
#[verifier::external_body]
fn has_other_grapheme_extend(c: char) -> (r: bool)
    ensures
        r == prop_other_grapheme_extend(c),
{
    c.ogr_ext()
}

/// Names the Unicode `Other_ID_Continue` property of a character as `seshat` gives it.
pub uninterp spec fn prop_other_id_continue(c: char) -> bool;

/// Whether `c` has the `Other_ID_Continue` property: `seshat`'s `Ucd::oidc` for `char`, whose result
/// [prop_other_id_continue] names.
#[verifier::external_body]
fn has_other_id_continue(c: char) -> (r: bool)
    ensures
        r == prop_other_id_continue(c),
{
    c.oidc()
}

/// Names the Unicode `Other_ID_Start` property of a character as `seshat` gives it.
pub uninterp spec fn prop_other_id_start(c: char) -> bool;

/// Whether `c` has the `Other_ID_Start` property: `seshat`'s `Ucd::oids` for `char`, whose result
/// [prop_other_id_start] names.
#[verifier::external_body]
fn has_other_id_start(c: char) -> (r: bool)
    ensures
        r == prop_other_id_start(c),
{
    c.oids()
}

/// Names the Unicode `Other_Lowercase` property of a character as `seshat` gives it.
pub uninterp spec fn prop_other_lowercase(c: char) -> bool;

/// Whether `c` has the `Other_Lowercase` property: `seshat`'s `Ucd::olower` for `char`, whose result
/// [prop_other_lowercase] names.
#[verifier::external_body]
fn has_other_lowercase(c: char) -> (r: bool)
    ensures
        r == prop_other_lowercase(c),
{
    c.olower()
}

/// Names the Unicode `Other_Math` property of a character as `seshat` gives it.
pub uninterp spec fn prop_other_math(c: char) -> bool;

/// Whether `c` has the `Other_Math` property: `seshat`'s `Ucd::omath` for `char`, whose result
/// [prop_other_math] names.
#[verifier::external_body]
fn has_other_math(c: char) -> (r: bool)
    ensures
        r == prop_other_math(c),
{
    c.omath()
}

/// Names the Unicode `Other_Uppercase` property of a character as `seshat` gives it.
pub uninterp spec fn prop_other_uppercase(c: char) -> bool;

/// Whether `c` has the `Other_Uppercase` property: `seshat`'s `Ucd::oupper` for `char`, whose result
/// [prop_other_uppercase] names.
#[verifier::external_body]
fn has_other_uppercase(c: char) -> (r: bool)
    ensures
        r == prop_other_uppercase(c),
{
    c.oupper()
}

/// Names the Unicode `Pattern_Syntax` property of a character as `seshat` gives it.
pub uninterp spec fn prop_pattern_syntax(c: char) -> bool;

/// Whether `c` has the `Pattern_Syntax` property: `seshat`'s `Ucd::pat_syn` for `char`, whose result
/// [prop_pattern_syntax] names.
#[verifier::external_body]
fn has_pattern_syntax(c: char) -> (r: bool)
    ensures
        r == prop_pattern_syntax(c),
{
    c.pat_syn()
}

/// Names the Unicode `Pattern_White_Space` property of a character as `seshat` gives it.
pub uninterp spec fn prop_pattern_white_space(c: char) -> bool;

/// Whether `c` has the `Pattern_White_Space` property: `seshat`'s `Ucd::pat_ws` for `char`, whose result
/// [prop_pattern_white_space] names.
#[verifier::external_body]
fn has_pattern_white_space(c: char) -> (r: bool)
    ensures
        r == prop_pattern_white_space(c),
{
    c.pat_ws()
}

/// Names the Unicode `Prepended_Concatenation_Mark` property of a character as `seshat` gives it.
pub uninterp spec fn prop_prepended_concatenation_mark(c: char) -> bool;

/// Whether `c` has the `Prepended_Concatenation_Mark` property: `seshat`'s `Ucd::pcm` for `char`, whose result
/// [prop_prepended_concatenation_mark] names.
#[verifier::external_body]
fn has_prepended_concatenation_mark(c: char) -> (r: bool)
    ensures
        r == prop_prepended_concatenation_mark(c),
{
    c.pcm()
}

/// Names the Unicode `Quotation_Mark` property of a character as `seshat` gives it.
pub uninterp spec fn prop_quotation_mark(c: char) -> bool;

/// Whether `c` has the `Quotation_Mark` property: `seshat`'s `Ucd::qmark` for `char`, whose result
/// [prop_quotation_mark] names.
#[verifier::external_body]
fn has_quotation_mark(c: char) -> (r: bool)
    ensures
        r == prop_quotation_mark(c),
{
    c.qmark()
}

/// Names the Unicode `Radical` property of a character as `seshat` gives it.
pub uninterp spec fn prop_radical(c: char) -> bool;

/// Whether `c` has the `Radical` property: `seshat`'s `Ucd::radical` for `char`, whose result
/// [prop_radical] names.
#[verifier::external_body]
fn has_radical(c: char) -> (r: bool)
    ensures
        r == prop_radical(c),
{
    c.radical()
}

/// Names the Unicode `Regional_Indicator` property of a character as `seshat` gives it.
pub uninterp spec fn prop_regional_indicator(c: char) -> bool;

/// Whether `c` has the `Regional_Indicator` property: `seshat`'s `Ucd::ri` for `char`, whose result
/// [prop_regional_indicator] names.
#[verifier::external_body]
fn has_regional_indicator(c: char) -> (r: bool)
    ensures
        r == prop_regional_indicator(c),
{
    c.ri()
}

/// Names the Unicode `Sentence_Terminal` property of a character as `seshat` gives it.
pub uninterp spec fn prop_sentence_terminal(c: char) -> bool;

/// Whether `c` has the `Sentence_Terminal` property: `seshat`'s `Ucd::sterm` for `char`, whose result
/// [prop_sentence_terminal] names.
#[verifier::external_body]
fn has_sentence_terminal(c: char) -> (r: bool)
    ensures
        r == prop_sentence_terminal(c),
{
    c.sterm()
}

/// Names the Unicode `Soft_Dotted` property of a character as `seshat` gives it.
pub uninterp spec fn prop_soft_dotted(c: char) -> bool;

/// Whether `c` has the `Soft_Dotted` property: `seshat`'s `Ucd::sd` for `char`, whose result
/// [prop_soft_dotted] names.
#[verifier::external_body]
fn has_soft_dotted(c: char) -> (r: bool)
    ensures
        r == prop_soft_dotted(c),
{
    c.sd()
}

/// Names the Unicode `Terminal_Punctuation` property of a character as `seshat` gives it.
pub uninterp spec fn prop_terminal_punctuation(c: char) -> bool;

/// Whether `c` has the `Terminal_Punctuation` property: `seshat`'s `Ucd::term` for `char`, whose result
/// [prop_terminal_punctuation] names.
#[verifier::external_body]
fn has_terminal_punctuation(c: char) -> (r: bool)
    ensures
        r == prop_terminal_punctuation(c),
{
    c.term()
}

/// Names the Unicode `Unified_Ideograph` property of a character as `seshat` gives it.
pub uninterp spec fn prop_unified_ideograph(c: char) -> bool;

/// Whether `c` has the `Unified_Ideograph` property: `seshat`'s `Ucd::uideo` for `char`, whose result
/// [prop_unified_ideograph] names.
#[verifier::external_body]
fn has_unified_ideograph(c: char) -> (r: bool)
    ensures
        r == prop_unified_ideograph(c),
{
    c.uideo()
}

/// Names the Unicode `Uppercase` property of a character as `seshat` gives it.
pub uninterp spec fn prop_uppercase(c: char) -> bool;

/// Whether `c` has the `Uppercase` property: `seshat`'s `Ucd::upper` for `char`, whose result
/// [prop_uppercase] names.
#[verifier::external_body]
fn has_uppercase(c: char) -> (r: bool)
    ensures
        r == prop_uppercase(c),
{
    c.upper()
}

/// Names the Unicode `Variation_Selector` property of a character as `seshat` gives it.
pub uninterp spec fn prop_variation_selector(c: char) -> bool;

/// Whether `c` has the `Variation_Selector` property: `seshat`'s `Ucd::vs` for `char`, whose result
/// [prop_variation_selector] names.
#[verifier::external_body]
fn has_variation_selector(c: char) -> (r: bool)
    ensures
        r == prop_variation_selector(c),
{
    c.vs()
}

/// Names the Unicode `White_Space` property of a character as `seshat` gives it.
pub uninterp spec fn prop_white_space(c: char) -> bool;

/// Whether `c` has the `White_Space` property: `seshat`'s `Ucd::wspace` for `char`, whose result
/// [prop_white_space] names.
#[verifier::external_body]
fn has_white_space(c: char) -> (r: bool)
    ensures
        r == prop_white_space(c),
{
    c.wspace()
}

/// Names the Unicode `XID_Continue` property of a character as `seshat` gives it.
pub uninterp spec fn prop_xid_continue(c: char) -> bool;

/// Whether `c` has the `XID_Continue` property: `seshat`'s `Ucd::xidc` for `char`, whose result
/// [prop_xid_continue] names.
#[verifier::external_body]
fn has_xid_continue(c: char) -> (r: bool)
    ensures
        r == prop_xid_continue(c),
{
    c.xidc()
}

/// Names the Unicode `XID_Start` property of a character as `seshat` gives it.
pub uninterp spec fn prop_xid_start(c: char) -> bool;

/// Whether `c` has the `XID_Start` property: `seshat`'s `Ucd::xids` for `char`, whose result
/// [prop_xid_start] names.
#[verifier::external_body]
fn has_xid_start(c: char) -> (r: bool)
    ensures
        r == prop_xid_start(c),
{
    c.xids()
}

/// Names what std's `char::is_alphabetic` gives for a character; its documentation
/// describes it as the `Alphabetic` property.
pub uninterp spec fn char_alphabetic(c: char) -> bool;

/// Whether `c` is alphabetic: std's `char::is_alphabetic`, whose result [char_alphabetic]
/// names.
#[verifier::external_body]
fn is_alphabetic(c: char) -> (r: bool)
    ensures
        r == char_alphabetic(c),
{
    c.is_alphabetic()
}

/// Names what std's `char::is_numeric` gives for a character; its documentation
/// describes it as the general categories `Nd`, `Nl` and `No`.
pub uninterp spec fn char_numeric(c: char) -> bool;

/// Whether `c` is numeric: std's `char::is_numeric`, whose result [char_numeric]
/// names.
#[verifier::external_body]
fn is_numeric(c: char) -> (r: bool)
    ensures
        r == char_numeric(c),
{
    c.is_numeric()
}

/// Names what std's `char::is_alphanumeric` gives for a character; its documentation
/// describes it as alphabetic or numeric.
pub uninterp spec fn char_alphanumeric(c: char) -> bool;

/// Whether `c` is alphanumeric: std's `char::is_alphanumeric`, whose result [char_alphanumeric]
/// names.
#[verifier::external_body]
fn is_alphanumeric(c: char) -> (r: bool)
    ensures
        r == char_alphanumeric(c),
        r == (char_alphabetic(c) || char_numeric(c)),
{
    c.is_alphanumeric()
}

/// Names what std's `char::is_whitespace` gives for a character; its documentation
/// describes it as the `White_Space` property.
pub uninterp spec fn char_whitespace(c: char) -> bool;

/// Whether `c` is whitespace: std's `char::is_whitespace`, whose result [char_whitespace]
/// names.
#[verifier::external_body]
fn is_whitespace(c: char) -> (r: bool)
    ensures
        r == char_whitespace(c),
{
    c.is_whitespace()
}

/// Names what std's `char::is_lowercase` gives for a character; its documentation
/// describes it as the `Lowercase` property.
pub uninterp spec fn char_lowercase(c: char) -> bool;

/// Whether `c` is lowercase: std's `char::is_lowercase`, whose result [char_lowercase]
/// names.
#[verifier::external_body]
fn is_lowercase(c: char) -> (r: bool)
    ensures
        r == char_lowercase(c),
{
    c.is_lowercase()
}

/// Names what std's `char::is_uppercase` gives for a character; its documentation
/// describes it as the `Uppercase` property.
pub uninterp spec fn char_uppercase(c: char) -> bool;

/// Whether `c` is uppercase: std's `char::is_uppercase`, whose result [char_uppercase]
/// names.
#[verifier::external_body]
fn is_uppercase(c: char) -> (r: bool)
    ensures
        r == char_uppercase(c),
{
    c.is_uppercase()
}

/// Names what std's `char::is_control` gives for a character; its documentation
/// describes it as the general category `Cc`.
pub uninterp spec fn char_control(c: char) -> bool;

/// Whether `c` is control: std's `char::is_control`, whose result [char_control]
/// names.
#[verifier::external_body]
fn is_control(c: char) -> (r: bool)
    ensures
        r == char_control(c),
{
    c.is_control()
}

/// Names whether the general category of a character, as `seshat` gives it, is `Pc`
/// (connector punctuation) and whether it is `Mn` (non-spacing mark).
pub uninterp spec fn pc_or_mn(c: char) -> (bool, bool);

/// Whether the general category of `c` is `Pc` and whether it is `Mn`: `seshat`'s `Ucd::gc`
/// for `char`, told apart for these two variants; [pc_or_mn] names the result.
#[verifier::external_body]
fn general_category_pc_mn(c: char) -> (r: (bool, bool))
    ensures
        r == pc_or_mn(c),
{
    let g = c.gc();
    (matches!(g, Gc::Pc), matches!(g, Gc::Mn))
}

/// `c` has the property.
pub open spec fn ucd_has(p: UcdProperty, c: char) -> bool {
    match p {
        UcdProperty::Alphabetic => prop_alphabetic(c),
        UcdProperty::AsciiHexDigit => prop_ascii_hex_digit(c),
        UcdProperty::BidiControl => prop_bidi_control(c),
        UcdProperty::CaseIgnorable => prop_case_ignorable(c),
        UcdProperty::Cased => prop_cased(c),
        UcdProperty::CompositionExclusion => prop_composition_exclusion(c),
        UcdProperty::Dash => prop_dash(c),
        UcdProperty::DefaultIgnorableCodePoint => prop_default_ignorable_code_point(c),
        UcdProperty::Deprecated => prop_deprecated(c),
        UcdProperty::Diacritic => prop_diacritic(c),
        UcdProperty::EmojiComponent => prop_emoji_component(c),
        UcdProperty::EmojiModifierBase => prop_emoji_modifier_base(c),
        UcdProperty::EmojiModifier => prop_emoji_modifier(c),
        UcdProperty::EmojiPresentation => prop_emoji_presentation(c),
        UcdProperty::Emoji => prop_emoji(c),
        UcdProperty::ExtendedPictographic => prop_extended_pictographic(c),
        UcdProperty::Extender => prop_extender(c),
        UcdProperty::FullCompositionExclusion => prop_full_composition_exclusion(c),
        UcdProperty::GraphemeExtend => prop_grapheme_extend(c),
        UcdProperty::HexDigit => prop_hex_digit(c),
        UcdProperty::Hyphen => prop_hyphen(c),
        UcdProperty::IdContinue => prop_id_continue(c),
        UcdProperty::IdStart => prop_id_start(c),
        UcdProperty::Ideographic => prop_ideographic(c),
        UcdProperty::IdsBinaryOperator => prop_ids_binary_operator(c),
        UcdProperty::IdsTrinaryOperator => prop_ids_trinary_operator(c),
        UcdProperty::JoinControl => prop_join_control(c),
        UcdProperty::LogicalOrderException => prop_logical_order_exception(c),
        UcdProperty::Lowercase => prop_lowercase(c),
        UcdProperty::Math => prop_math(c),
        UcdProperty::NoncharacterCodePoint => prop_noncharacter_code_point(c),
        UcdProperty::OtherAlphabetic => prop_other_alphabetic(c),
        UcdProperty::OtherDefaultIgnorableCodePoint => prop_other_default_ignorable_code_point(c),
        UcdProperty::OtherGraphemeExtend => prop_other_grapheme_extend(c),
        UcdProperty::OtherIdContinue => prop_other_id_continue(c),
        UcdProperty::OtherIdStart => prop_other_id_start(c),
        UcdProperty::OtherLowercase => prop_other_lowercase(c),
        UcdProperty::OtherMath => prop_other_math(c),
        UcdProperty::OtherUppercase => prop_other_uppercase(c),
        UcdProperty::PatternSyntax => prop_pattern_syntax(c),
        UcdProperty::PatternWhiteSpace => prop_pattern_white_space(c),
        UcdProperty::PrependedConcatenationMark => prop_prepended_concatenation_mark(c),
        UcdProperty::QuotationMark => prop_quotation_mark(c),
        UcdProperty::Radical => prop_radical(c),
        UcdProperty::RegionalIndicator => prop_regional_indicator(c),
        UcdProperty::SentenceTerminal => prop_sentence_terminal(c),
        UcdProperty::SoftDotted => prop_soft_dotted(c),
        UcdProperty::TerminalPunctuation => prop_terminal_punctuation(c),
        UcdProperty::UnifiedIdeograph => prop_unified_ideograph(c),
        UcdProperty::Uppercase => prop_uppercase(c),
        UcdProperty::VariationSelector => prop_variation_selector(c),
        UcdProperty::WhiteSpace => prop_white_space(c),
        UcdProperty::XidContinue => prop_xid_continue(c),
        UcdProperty::XidStart => prop_xid_start(c),
        UcdProperty::CharAlphabetic => char_alphabetic(c),
        UcdProperty::CharNumeric => char_numeric(c),
        UcdProperty::CharAlphanumeric => char_alphanumeric(c),
        UcdProperty::CharWhitespace => char_whitespace(c),
        UcdProperty::CharLowercase => char_lowercase(c),
        UcdProperty::CharUppercase => char_uppercase(c),
        UcdProperty::CharControl => char_control(c),
        UcdProperty::ConnectorPunctuation => pc_or_mn(c).0,
        UcdProperty::NonspacingMark => pc_or_mn(c).1,
    }
}

/// Checks whether `c` has the property.
pub fn ucd_matches(p: UcdProperty, c: char) -> (r: bool)
    ensures
        r == ucd_has(p, c),
{
    match p {
        UcdProperty::Alphabetic => has_alphabetic(c),
        UcdProperty::AsciiHexDigit => has_ascii_hex_digit(c),
        UcdProperty::BidiControl => has_bidi_control(c),
        UcdProperty::CaseIgnorable => has_case_ignorable(c),
        UcdProperty::Cased => has_cased(c),
        UcdProperty::CompositionExclusion => has_composition_exclusion(c),
        UcdProperty::Dash => has_dash(c),
        UcdProperty::DefaultIgnorableCodePoint => has_default_ignorable_code_point(c),
        UcdProperty::Deprecated => has_deprecated(c),
        UcdProperty::Diacritic => has_diacritic(c),
        UcdProperty::EmojiComponent => has_emoji_component(c),
        UcdProperty::EmojiModifierBase => has_emoji_modifier_base(c),
        UcdProperty::EmojiModifier => has_emoji_modifier(c),
        UcdProperty::EmojiPresentation => has_emoji_presentation(c),
        UcdProperty::Emoji => has_emoji(c),
        UcdProperty::ExtendedPictographic => has_extended_pictographic(c),
        UcdProperty::Extender => has_extender(c),
        UcdProperty::FullCompositionExclusion => has_full_composition_exclusion(c),
        UcdProperty::GraphemeExtend => has_grapheme_extend(c),
        UcdProperty::HexDigit => has_hex_digit(c),
        UcdProperty::Hyphen => has_hyphen(c),
        UcdProperty::IdContinue => has_id_continue(c),
        UcdProperty::IdStart => has_id_start(c),
        UcdProperty::Ideographic => has_ideographic(c),
        UcdProperty::IdsBinaryOperator => has_ids_binary_operator(c),
        UcdProperty::IdsTrinaryOperator => has_ids_trinary_operator(c),
        UcdProperty::JoinControl => has_join_control(c),
        UcdProperty::LogicalOrderException => has_logical_order_exception(c),
        UcdProperty::Lowercase => has_lowercase(c),
        UcdProperty::Math => has_math(c),
        UcdProperty::NoncharacterCodePoint => has_noncharacter_code_point(c),
        UcdProperty::OtherAlphabetic => has_other_alphabetic(c),
        UcdProperty::OtherDefaultIgnorableCodePoint => has_other_default_ignorable_code_point(c),
        UcdProperty::OtherGraphemeExtend => has_other_grapheme_extend(c),
        UcdProperty::OtherIdContinue => has_other_id_continue(c),
        UcdProperty::OtherIdStart => has_other_id_start(c),
        UcdProperty::OtherLowercase => has_other_lowercase(c),
        UcdProperty::OtherMath => has_other_math(c),
        UcdProperty::OtherUppercase => has_other_uppercase(c),
        UcdProperty::PatternSyntax => has_pattern_syntax(c),
        UcdProperty::PatternWhiteSpace => has_pattern_white_space(c),
        UcdProperty::PrependedConcatenationMark => has_prepended_concatenation_mark(c),
        UcdProperty::QuotationMark => has_quotation_mark(c),
        UcdProperty::Radical => has_radical(c),
        UcdProperty::RegionalIndicator => has_regional_indicator(c),
        UcdProperty::SentenceTerminal => has_sentence_terminal(c),
        UcdProperty::SoftDotted => has_soft_dotted(c),
        UcdProperty::TerminalPunctuation => has_terminal_punctuation(c),
        UcdProperty::UnifiedIdeograph => has_unified_ideograph(c),
        UcdProperty::Uppercase => has_uppercase(c),
        UcdProperty::VariationSelector => has_variation_selector(c),
        UcdProperty::WhiteSpace => has_white_space(c),
        UcdProperty::XidContinue => has_xid_continue(c),
        UcdProperty::XidStart => has_xid_start(c),
        UcdProperty::CharAlphabetic => is_alphabetic(c),
        UcdProperty::CharNumeric => is_numeric(c),
        UcdProperty::CharAlphanumeric => is_alphanumeric(c),
        UcdProperty::CharWhitespace => is_whitespace(c),
        UcdProperty::CharLowercase => is_lowercase(c),
        UcdProperty::CharUppercase => is_uppercase(c),
        UcdProperty::CharControl => is_control(c),
        UcdProperty::ConnectorPunctuation => general_category_pc_mn(c).0,
        UcdProperty::NonspacingMark => general_category_pc_mn(c).1,
    }
}

/// The binary property that a named class names, `None` for a name that is not supported.
pub open spec fn named_property(name: Seq<char>) -> Option<UcdProperty> {
    if name == "Alphabetic"@ {
        Some(UcdProperty::Alphabetic)
    } else if name == "ASCII_Hex_Digit"@ {
        Some(UcdProperty::AsciiHexDigit)
    } else if name == "Bidi_Control"@ {
        Some(UcdProperty::BidiControl)
    } else if name == "Case_Ignorable"@ {
        Some(UcdProperty::CaseIgnorable)
    } else if name == "Cased"@ {
        Some(UcdProperty::Cased)
    } else if name == "Composition_Exclusion"@ {
        Some(UcdProperty::CompositionExclusion)
    } else if name == "Dash"@ {
        Some(UcdProperty::Dash)
    } else if name == "Default_Ignorable_Code_Point"@ {
        Some(UcdProperty::DefaultIgnorableCodePoint)
    } else if name == "Deprecated"@ {
        Some(UcdProperty::Deprecated)
    } else if name == "Diacritic"@ {
        Some(UcdProperty::Diacritic)
    } else if name == "Emoji_Component"@ {
        Some(UcdProperty::EmojiComponent)
    } else if name == "Emoji_Modifier_Base"@ {
        Some(UcdProperty::EmojiModifierBase)
    } else if name == "Emoji_Modifier"@ {
        Some(UcdProperty::EmojiModifier)
    } else if name == "Emoji_Presentation"@ {
        Some(UcdProperty::EmojiPresentation)
    } else if name == "Emoji"@ {
        Some(UcdProperty::Emoji)
    } else if name == "Extended_Pictographic"@ {
        Some(UcdProperty::ExtendedPictographic)
    } else if name == "Extender"@ {
        Some(UcdProperty::Extender)
    } else if name == "Full_Composition_Exclusion"@ {
        Some(UcdProperty::FullCompositionExclusion)
    } else if name == "Grapheme_Extend"@ {
        Some(UcdProperty::GraphemeExtend)
    } else if name == "Hex_Digit"@ {
        Some(UcdProperty::HexDigit)
    } else if name == "Hyphen"@ {
        Some(UcdProperty::Hyphen)
    } else if name == "ID_Continue"@ {
        Some(UcdProperty::IdContinue)
    } else if name == "ID_Start"@ {
        Some(UcdProperty::IdStart)
    } else if name == "Ideographic"@ {
        Some(UcdProperty::Ideographic)
    } else if name == "IDS_Binary_Operator"@ {
        Some(UcdProperty::IdsBinaryOperator)
    } else if name == "IDS_Trinary_Operator"@ {
        Some(UcdProperty::IdsTrinaryOperator)
    } else if name == "Join_Control"@ {
        Some(UcdProperty::JoinControl)
    } else if name == "Logical_Order_Exception"@ {
        Some(UcdProperty::LogicalOrderException)
    } else if name == "Lowercase"@ {
        Some(UcdProperty::Lowercase)
    } else if name == "Math"@ {
        Some(UcdProperty::Math)
    } else if name == "Noncharacter_Code_Point"@ {
        Some(UcdProperty::NoncharacterCodePoint)
    } else if name == "Other_Alphabetic"@ {
        Some(UcdProperty::OtherAlphabetic)
    } else if name == "Other_Default_Ignorable_Code_Point"@ {
        Some(UcdProperty::OtherDefaultIgnorableCodePoint)
    } else if name == "Other_Grapheme_Extend"@ {
        Some(UcdProperty::OtherGraphemeExtend)
    } else if name == "Other_ID_Continue"@ {
        Some(UcdProperty::OtherIdContinue)
    } else if name == "Other_ID_Start"@ {
        Some(UcdProperty::OtherIdStart)
    } else if name == "Other_Lowercase"@ {
        Some(UcdProperty::OtherLowercase)
    } else if name == "Other_Math"@ {
        Some(UcdProperty::OtherMath)
    } else if name == "Other_Uppercase"@ {
        Some(UcdProperty::OtherUppercase)
    } else if name == "Pattern_Syntax"@ {
        Some(UcdProperty::PatternSyntax)
    } else if name == "Pattern_White_Space"@ {
        Some(UcdProperty::PatternWhiteSpace)
    } else if name == "Prepended_Concatenation_Mark"@ {
        Some(UcdProperty::PrependedConcatenationMark)
    } else if name == "Quotation_Mark"@ {
        Some(UcdProperty::QuotationMark)
    } else if name == "Radical"@ {
        Some(UcdProperty::Radical)
    } else if name == "Regional_Indicator"@ {
        Some(UcdProperty::RegionalIndicator)
    } else if name == "Sentence_Terminal"@ {
        Some(UcdProperty::SentenceTerminal)
    } else if name == "Soft_Dotted"@ {
        Some(UcdProperty::SoftDotted)
    } else if name == "Terminal_Punctuation"@ {
        Some(UcdProperty::TerminalPunctuation)
    } else if name == "Unified_Ideograph"@ {
        Some(UcdProperty::UnifiedIdeograph)
    } else if name == "Uppercase"@ {
        Some(UcdProperty::Uppercase)
    } else if name == "Variation_Selector"@ {
        Some(UcdProperty::VariationSelector)
    } else if name == "White_Space"@ {
        Some(UcdProperty::WhiteSpace)
    } else if name == "XID_Continue"@ {
        Some(UcdProperty::XidContinue)
    } else if name == "XID_Start"@ {
        Some(UcdProperty::XidStart)
    } else {
        None
    }
}

/// What each named Unicode class contains: the characters with the binary property of that
/// name, as `seshat` gives it.
#[verifier::rlimit(60)]
pub proof fn lemma_named_class_meaning(c: char)
    ensures
        named_property("Alphabetic"@) == Some(UcdProperty::Alphabetic) && ucd_has(UcdProperty::Alphabetic, c) == prop_alphabetic(c),
        named_property("ASCII_Hex_Digit"@) == Some(UcdProperty::AsciiHexDigit) && ucd_has(UcdProperty::AsciiHexDigit, c) == prop_ascii_hex_digit(c),
        named_property("Bidi_Control"@) == Some(UcdProperty::BidiControl) && ucd_has(UcdProperty::BidiControl, c) == prop_bidi_control(c),
        named_property("Case_Ignorable"@) == Some(UcdProperty::CaseIgnorable) && ucd_has(UcdProperty::CaseIgnorable, c) == prop_case_ignorable(c),
        named_property("Cased"@) == Some(UcdProperty::Cased) && ucd_has(UcdProperty::Cased, c) == prop_cased(c),
        named_property("Composition_Exclusion"@) == Some(UcdProperty::CompositionExclusion) && ucd_has(UcdProperty::CompositionExclusion, c) == prop_composition_exclusion(c),
        named_property("Dash"@) == Some(UcdProperty::Dash) && ucd_has(UcdProperty::Dash, c) == prop_dash(c),
        named_property("Default_Ignorable_Code_Point"@) == Some(UcdProperty::DefaultIgnorableCodePoint) && ucd_has(UcdProperty::DefaultIgnorableCodePoint, c) == prop_default_ignorable_code_point(c),
        named_property("Deprecated"@) == Some(UcdProperty::Deprecated) && ucd_has(UcdProperty::Deprecated, c) == prop_deprecated(c),
        named_property("Diacritic"@) == Some(UcdProperty::Diacritic) && ucd_has(UcdProperty::Diacritic, c) == prop_diacritic(c),
        named_property("Emoji_Component"@) == Some(UcdProperty::EmojiComponent) && ucd_has(UcdProperty::EmojiComponent, c) == prop_emoji_component(c),
        named_property("Emoji_Modifier_Base"@) == Some(UcdProperty::EmojiModifierBase) && ucd_has(UcdProperty::EmojiModifierBase, c) == prop_emoji_modifier_base(c),
        named_property("Emoji_Modifier"@) == Some(UcdProperty::EmojiModifier) && ucd_has(UcdProperty::EmojiModifier, c) == prop_emoji_modifier(c),
        named_property("Emoji_Presentation"@) == Some(UcdProperty::EmojiPresentation) && ucd_has(UcdProperty::EmojiPresentation, c) == prop_emoji_presentation(c),
        named_property("Emoji"@) == Some(UcdProperty::Emoji) && ucd_has(UcdProperty::Emoji, c) == prop_emoji(c),
        named_property("Extended_Pictographic"@) == Some(UcdProperty::ExtendedPictographic) && ucd_has(UcdProperty::ExtendedPictographic, c) == prop_extended_pictographic(c),
        named_property("Extender"@) == Some(UcdProperty::Extender) && ucd_has(UcdProperty::Extender, c) == prop_extender(c),
        named_property("Full_Composition_Exclusion"@) == Some(UcdProperty::FullCompositionExclusion) && ucd_has(UcdProperty::FullCompositionExclusion, c) == prop_full_composition_exclusion(c),
        named_property("Grapheme_Extend"@) == Some(UcdProperty::GraphemeExtend) && ucd_has(UcdProperty::GraphemeExtend, c) == prop_grapheme_extend(c),
        named_property("Hex_Digit"@) == Some(UcdProperty::HexDigit) && ucd_has(UcdProperty::HexDigit, c) == prop_hex_digit(c),
        named_property("Hyphen"@) == Some(UcdProperty::Hyphen) && ucd_has(UcdProperty::Hyphen, c) == prop_hyphen(c),
        named_property("ID_Continue"@) == Some(UcdProperty::IdContinue) && ucd_has(UcdProperty::IdContinue, c) == prop_id_continue(c),
        named_property("ID_Start"@) == Some(UcdProperty::IdStart) && ucd_has(UcdProperty::IdStart, c) == prop_id_start(c),
        named_property("Ideographic"@) == Some(UcdProperty::Ideographic) && ucd_has(UcdProperty::Ideographic, c) == prop_ideographic(c),
        named_property("IDS_Binary_Operator"@) == Some(UcdProperty::IdsBinaryOperator) && ucd_has(UcdProperty::IdsBinaryOperator, c) == prop_ids_binary_operator(c),
        named_property("IDS_Trinary_Operator"@) == Some(UcdProperty::IdsTrinaryOperator) && ucd_has(UcdProperty::IdsTrinaryOperator, c) == prop_ids_trinary_operator(c),
        named_property("Join_Control"@) == Some(UcdProperty::JoinControl) && ucd_has(UcdProperty::JoinControl, c) == prop_join_control(c),
        named_property("Logical_Order_Exception"@) == Some(UcdProperty::LogicalOrderException) && ucd_has(UcdProperty::LogicalOrderException, c) == prop_logical_order_exception(c),
        named_property("Lowercase"@) == Some(UcdProperty::Lowercase) && ucd_has(UcdProperty::Lowercase, c) == prop_lowercase(c),
        named_property("Math"@) == Some(UcdProperty::Math) && ucd_has(UcdProperty::Math, c) == prop_math(c),
        named_property("Noncharacter_Code_Point"@) == Some(UcdProperty::NoncharacterCodePoint) && ucd_has(UcdProperty::NoncharacterCodePoint, c) == prop_noncharacter_code_point(c),
        named_property("Other_Alphabetic"@) == Some(UcdProperty::OtherAlphabetic) && ucd_has(UcdProperty::OtherAlphabetic, c) == prop_other_alphabetic(c),
        named_property("Other_Default_Ignorable_Code_Point"@) == Some(UcdProperty::OtherDefaultIgnorableCodePoint) && ucd_has(UcdProperty::OtherDefaultIgnorableCodePoint, c) == prop_other_default_ignorable_code_point(c),
        named_property("Other_Grapheme_Extend"@) == Some(UcdProperty::OtherGraphemeExtend) && ucd_has(UcdProperty::OtherGraphemeExtend, c) == prop_other_grapheme_extend(c),
        named_property("Other_ID_Continue"@) == Some(UcdProperty::OtherIdContinue) && ucd_has(UcdProperty::OtherIdContinue, c) == prop_other_id_continue(c),
        named_property("Other_ID_Start"@) == Some(UcdProperty::OtherIdStart) && ucd_has(UcdProperty::OtherIdStart, c) == prop_other_id_start(c),
        named_property("Other_Lowercase"@) == Some(UcdProperty::OtherLowercase) && ucd_has(UcdProperty::OtherLowercase, c) == prop_other_lowercase(c),
        named_property("Other_Math"@) == Some(UcdProperty::OtherMath) && ucd_has(UcdProperty::OtherMath, c) == prop_other_math(c),
        named_property("Other_Uppercase"@) == Some(UcdProperty::OtherUppercase) && ucd_has(UcdProperty::OtherUppercase, c) == prop_other_uppercase(c),
        named_property("Pattern_Syntax"@) == Some(UcdProperty::PatternSyntax) && ucd_has(UcdProperty::PatternSyntax, c) == prop_pattern_syntax(c),
        named_property("Pattern_White_Space"@) == Some(UcdProperty::PatternWhiteSpace) && ucd_has(UcdProperty::PatternWhiteSpace, c) == prop_pattern_white_space(c),
        named_property("Prepended_Concatenation_Mark"@) == Some(UcdProperty::PrependedConcatenationMark) && ucd_has(UcdProperty::PrependedConcatenationMark, c) == prop_prepended_concatenation_mark(c),
        named_property("Quotation_Mark"@) == Some(UcdProperty::QuotationMark) && ucd_has(UcdProperty::QuotationMark, c) == prop_quotation_mark(c),
        named_property("Radical"@) == Some(UcdProperty::Radical) && ucd_has(UcdProperty::Radical, c) == prop_radical(c),
        named_property("Regional_Indicator"@) == Some(UcdProperty::RegionalIndicator) && ucd_has(UcdProperty::RegionalIndicator, c) == prop_regional_indicator(c),
        named_property("Sentence_Terminal"@) == Some(UcdProperty::SentenceTerminal) && ucd_has(UcdProperty::SentenceTerminal, c) == prop_sentence_terminal(c),
        named_property("Soft_Dotted"@) == Some(UcdProperty::SoftDotted) && ucd_has(UcdProperty::SoftDotted, c) == prop_soft_dotted(c),
        named_property("Terminal_Punctuation"@) == Some(UcdProperty::TerminalPunctuation) && ucd_has(UcdProperty::TerminalPunctuation, c) == prop_terminal_punctuation(c),
        named_property("Unified_Ideograph"@) == Some(UcdProperty::UnifiedIdeograph) && ucd_has(UcdProperty::UnifiedIdeograph, c) == prop_unified_ideograph(c),
        named_property("Uppercase"@) == Some(UcdProperty::Uppercase) && ucd_has(UcdProperty::Uppercase, c) == prop_uppercase(c),
        named_property("Variation_Selector"@) == Some(UcdProperty::VariationSelector) && ucd_has(UcdProperty::VariationSelector, c) == prop_variation_selector(c),
        named_property("White_Space"@) == Some(UcdProperty::WhiteSpace) && ucd_has(UcdProperty::WhiteSpace, c) == prop_white_space(c),
        named_property("XID_Continue"@) == Some(UcdProperty::XidContinue) && ucd_has(UcdProperty::XidContinue, c) == prop_xid_continue(c),
        named_property("XID_Start"@) == Some(UcdProperty::XidStart) && ucd_has(UcdProperty::XidStart, c) == prop_xid_start(c),
{
    reveal_strlit("Alphabetic");
    assert("Alphabetic"@.len() == 10);
    reveal_strlit("ASCII_Hex_Digit");
    assert("ASCII_Hex_Digit"@.len() == 15);
    reveal_strlit("Bidi_Control");
    assert("Bidi_Control"@.len() == 12);
    reveal_strlit("Case_Ignorable");
    assert("Case_Ignorable"@.len() == 14);
    reveal_strlit("Cased");
    assert("Cased"@.len() == 5);
    reveal_strlit("Composition_Exclusion");
    assert("Composition_Exclusion"@.len() == 21);
    reveal_strlit("Dash");
    assert("Dash"@.len() == 4);
    reveal_strlit("Default_Ignorable_Code_Point");
    assert("Default_Ignorable_Code_Point"@.len() == 28);
    reveal_strlit("Deprecated");
    assert("Deprecated"@.len() == 10);
    reveal_strlit("Diacritic");
    assert("Diacritic"@.len() == 9);
    reveal_strlit("Emoji_Component");
    assert("Emoji_Component"@.len() == 15);
    reveal_strlit("Emoji_Modifier_Base");
    assert("Emoji_Modifier_Base"@.len() == 19);
    reveal_strlit("Emoji_Modifier");
    assert("Emoji_Modifier"@.len() == 14);
    reveal_strlit("Emoji_Presentation");
    assert("Emoji_Presentation"@.len() == 18);
    reveal_strlit("Emoji");
    assert("Emoji"@.len() == 5);
    reveal_strlit("Extended_Pictographic");
    assert("Extended_Pictographic"@.len() == 21);
    reveal_strlit("Extender");
    assert("Extender"@.len() == 8);
    reveal_strlit("Full_Composition_Exclusion");
    assert("Full_Composition_Exclusion"@.len() == 26);
    reveal_strlit("Grapheme_Extend");
    assert("Grapheme_Extend"@.len() == 15);
    reveal_strlit("Hex_Digit");
    assert("Hex_Digit"@.len() == 9);
    reveal_strlit("Hyphen");
    assert("Hyphen"@.len() == 6);
    reveal_strlit("ID_Continue");
    assert("ID_Continue"@.len() == 11);
    reveal_strlit("ID_Start");
    assert("ID_Start"@.len() == 8);
    reveal_strlit("Ideographic");
    assert("Ideographic"@.len() == 11);
    reveal_strlit("IDS_Binary_Operator");
    assert("IDS_Binary_Operator"@.len() == 19);
    reveal_strlit("IDS_Trinary_Operator");
    assert("IDS_Trinary_Operator"@.len() == 20);
    reveal_strlit("Join_Control");
    assert("Join_Control"@.len() == 12);
    reveal_strlit("Logical_Order_Exception");
    assert("Logical_Order_Exception"@.len() == 23);
    reveal_strlit("Lowercase");
    assert("Lowercase"@.len() == 9);
    reveal_strlit("Math");
    assert("Math"@.len() == 4);
    reveal_strlit("Noncharacter_Code_Point");
    assert("Noncharacter_Code_Point"@.len() == 23);
    reveal_strlit("Other_Alphabetic");
    assert("Other_Alphabetic"@.len() == 16);
    reveal_strlit("Other_Default_Ignorable_Code_Point");
    assert("Other_Default_Ignorable_Code_Point"@.len() == 34);
    reveal_strlit("Other_Grapheme_Extend");
    assert("Other_Grapheme_Extend"@.len() == 21);
    reveal_strlit("Other_ID_Continue");
    assert("Other_ID_Continue"@.len() == 17);
    reveal_strlit("Other_ID_Start");
    assert("Other_ID_Start"@.len() == 14);
    reveal_strlit("Other_Lowercase");
    assert("Other_Lowercase"@.len() == 15);
    reveal_strlit("Other_Math");
    assert("Other_Math"@.len() == 10);
    reveal_strlit("Other_Uppercase");
    assert("Other_Uppercase"@.len() == 15);
    reveal_strlit("Pattern_Syntax");
    assert("Pattern_Syntax"@.len() == 14);
    reveal_strlit("Pattern_White_Space");
    assert("Pattern_White_Space"@.len() == 19);
    reveal_strlit("Prepended_Concatenation_Mark");
    assert("Prepended_Concatenation_Mark"@.len() == 28);
    reveal_strlit("Quotation_Mark");
    assert("Quotation_Mark"@.len() == 14);
    reveal_strlit("Radical");
    assert("Radical"@.len() == 7);
    reveal_strlit("Regional_Indicator");
    assert("Regional_Indicator"@.len() == 18);
    reveal_strlit("Sentence_Terminal");
    assert("Sentence_Terminal"@.len() == 17);
    reveal_strlit("Soft_Dotted");
    assert("Soft_Dotted"@.len() == 11);
    reveal_strlit("Terminal_Punctuation");
    assert("Terminal_Punctuation"@.len() == 20);
    reveal_strlit("Unified_Ideograph");
    assert("Unified_Ideograph"@.len() == 17);
    reveal_strlit("Uppercase");
    assert("Uppercase"@.len() == 9);
    reveal_strlit("Variation_Selector");
    assert("Variation_Selector"@.len() == 18);
    reveal_strlit("White_Space");
    assert("White_Space"@.len() == 11);
    reveal_strlit("XID_Continue");
    assert("XID_Continue"@.len() == 12);
    reveal_strlit("XID_Start");
    assert("XID_Start"@.len() == 9);
    // names of equal length differ in a character
    assert("Alphabetic"@[0] != "Deprecated"@[0]);
    assert("Alphabetic"@[0] != "Other_Math"@[0]);
    assert("ASCII_Hex_Digit"@[0] != "Emoji_Component"@[0]);
    assert("ASCII_Hex_Digit"@[0] != "Grapheme_Extend"@[0]);
    assert("ASCII_Hex_Digit"@[0] != "Other_Lowercase"@[0]);
    assert("ASCII_Hex_Digit"@[0] != "Other_Uppercase"@[0]);
    assert("Bidi_Control"@[0] != "Join_Control"@[0]);
    assert("Bidi_Control"@[0] != "XID_Continue"@[0]);
    assert("Case_Ignorable"@[0] != "Emoji_Modifier"@[0]);
    assert("Case_Ignorable"@[0] != "Other_ID_Start"@[0]);
    assert("Case_Ignorable"@[0] != "Pattern_Syntax"@[0]);
    assert("Case_Ignorable"@[0] != "Quotation_Mark"@[0]);
    assert("Cased"@[0] != "Emoji"@[0]);
    assert("Composition_Exclusion"@[0] != "Extended_Pictographic"@[0]);
    assert("Composition_Exclusion"@[0] != "Other_Grapheme_Extend"@[0]);
    assert("Dash"@[0] != "Math"@[0]);
    assert("Default_Ignorable_Code_Point"@[0] != "Prepended_Concatenation_Mark"@[0]);
    assert("Deprecated"@[0] != "Other_Math"@[0]);
    assert("Diacritic"@[0] != "Hex_Digit"@[0]);
    assert("Diacritic"@[0] != "Lowercase"@[0]);
    assert("Diacritic"@[0] != "Uppercase"@[0]);
    assert("Diacritic"@[0] != "XID_Start"@[0]);
    assert("Emoji_Component"@[0] != "Grapheme_Extend"@[0]);
    assert("Emoji_Component"@[0] != "Other_Lowercase"@[0]);
    assert("Emoji_Component"@[0] != "Other_Uppercase"@[0]);
    assert("Emoji_Modifier_Base"@[0] != "IDS_Binary_Operator"@[0]);
    assert("Emoji_Modifier_Base"@[0] != "Pattern_White_Space"@[0]);
    assert("Emoji_Modifier"@[0] != "Other_ID_Start"@[0]);
    assert("Emoji_Modifier"@[0] != "Pattern_Syntax"@[0]);
    assert("Emoji_Modifier"@[0] != "Quotation_Mark"@[0]);
    assert("Emoji_Presentation"@[0] != "Regional_Indicator"@[0]);
    assert("Emoji_Presentation"@[0] != "Variation_Selector"@[0]);
    assert("Extended_Pictographic"@[0] != "Other_Grapheme_Extend"@[0]);
    assert("Extender"@[0] != "ID_Start"@[0]);
    assert("Grapheme_Extend"@[0] != "Other_Lowercase"@[0]);
    assert("Grapheme_Extend"@[0] != "Other_Uppercase"@[0]);
    assert("Hex_Digit"@[0] != "Lowercase"@[0]);
    assert("Hex_Digit"@[0] != "Uppercase"@[0]);
    assert("Hex_Digit"@[0] != "XID_Start"@[0]);
    assert("ID_Continue"@[1] != "Ideographic"@[1]);
    assert("ID_Continue"@[0] != "Soft_Dotted"@[0]);
    assert("ID_Continue"@[0] != "White_Space"@[0]);
    assert("Ideographic"@[0] != "Soft_Dotted"@[0]);
    assert("Ideographic"@[0] != "White_Space"@[0]);
    assert("IDS_Binary_Operator"@[0] != "Pattern_White_Space"@[0]);
    assert("IDS_Trinary_Operator"@[0] != "Terminal_Punctuation"@[0]);
    assert("Join_Control"@[0] != "XID_Continue"@[0]);
    assert("Logical_Order_Exception"@[0] != "Noncharacter_Code_Point"@[0]);
    assert("Lowercase"@[0] != "Uppercase"@[0]);
    assert("Lowercase"@[0] != "XID_Start"@[0]);
    assert("Other_ID_Continue"@[0] != "Sentence_Terminal"@[0]);
    assert("Other_ID_Continue"@[0] != "Unified_Ideograph"@[0]);
    assert("Other_ID_Start"@[0] != "Pattern_Syntax"@[0]);
    assert("Other_ID_Start"@[0] != "Quotation_Mark"@[0]);
    assert("Other_Lowercase"@[6] != "Other_Uppercase"@[6]);
    assert("Pattern_Syntax"@[0] != "Quotation_Mark"@[0]);
    assert("Regional_Indicator"@[0] != "Variation_Selector"@[0]);
    assert("Sentence_Terminal"@[0] != "Unified_Ideograph"@[0]);
    assert("Soft_Dotted"@[0] != "White_Space"@[0]);
    assert("Uppercase"@[0] != "XID_Start"@[0]);
}

/// The binary property that a named class names, `None` for a name that is not supported.
pub fn property_of_name(name: &str) -> (r: Option<UcdProperty>)
    ensures
        r == named_property(name@),
{
    let n = str_chars(name);
    if chars_equal(&n, &str_chars("Alphabetic")) {
        Some(UcdProperty::Alphabetic)
    } else if chars_equal(&n, &str_chars("ASCII_Hex_Digit")) {
        Some(UcdProperty::AsciiHexDigit)
    } else if chars_equal(&n, &str_chars("Bidi_Control")) {
        Some(UcdProperty::BidiControl)
    } else if chars_equal(&n, &str_chars("Case_Ignorable")) {
        Some(UcdProperty::CaseIgnorable)
    } else if chars_equal(&n, &str_chars("Cased")) {
        Some(UcdProperty::Cased)
    } else if chars_equal(&n, &str_chars("Composition_Exclusion")) {
        Some(UcdProperty::CompositionExclusion)
    } else if chars_equal(&n, &str_chars("Dash")) {
        Some(UcdProperty::Dash)
    } else if chars_equal(&n, &str_chars("Default_Ignorable_Code_Point")) {
        Some(UcdProperty::DefaultIgnorableCodePoint)
    } else if chars_equal(&n, &str_chars("Deprecated")) {
        Some(UcdProperty::Deprecated)
    } else if chars_equal(&n, &str_chars("Diacritic")) {
        Some(UcdProperty::Diacritic)
    } else if chars_equal(&n, &str_chars("Emoji_Component")) {
        Some(UcdProperty::EmojiComponent)
    } else if chars_equal(&n, &str_chars("Emoji_Modifier_Base")) {
        Some(UcdProperty::EmojiModifierBase)
    } else if chars_equal(&n, &str_chars("Emoji_Modifier")) {
        Some(UcdProperty::EmojiModifier)
    } else if chars_equal(&n, &str_chars("Emoji_Presentation")) {
        Some(UcdProperty::EmojiPresentation)
    } else if chars_equal(&n, &str_chars("Emoji")) {
        Some(UcdProperty::Emoji)
    } else if chars_equal(&n, &str_chars("Extended_Pictographic")) {
        Some(UcdProperty::ExtendedPictographic)
    } else if chars_equal(&n, &str_chars("Extender")) {
        Some(UcdProperty::Extender)
    } else if chars_equal(&n, &str_chars("Full_Composition_Exclusion")) {
        Some(UcdProperty::FullCompositionExclusion)
    } else if chars_equal(&n, &str_chars("Grapheme_Extend")) {
        Some(UcdProperty::GraphemeExtend)
    } else if chars_equal(&n, &str_chars("Hex_Digit")) {
        Some(UcdProperty::HexDigit)
    } else if chars_equal(&n, &str_chars("Hyphen")) {
        Some(UcdProperty::Hyphen)
    } else if chars_equal(&n, &str_chars("ID_Continue")) {
        Some(UcdProperty::IdContinue)
    } else if chars_equal(&n, &str_chars("ID_Start")) {
        Some(UcdProperty::IdStart)
    } else if chars_equal(&n, &str_chars("Ideographic")) {
        Some(UcdProperty::Ideographic)
    } else if chars_equal(&n, &str_chars("IDS_Binary_Operator")) {
        Some(UcdProperty::IdsBinaryOperator)
    } else if chars_equal(&n, &str_chars("IDS_Trinary_Operator")) {
        Some(UcdProperty::IdsTrinaryOperator)
    } else if chars_equal(&n, &str_chars("Join_Control")) {
        Some(UcdProperty::JoinControl)
    } else if chars_equal(&n, &str_chars("Logical_Order_Exception")) {
        Some(UcdProperty::LogicalOrderException)
    } else if chars_equal(&n, &str_chars("Lowercase")) {
        Some(UcdProperty::Lowercase)
    } else if chars_equal(&n, &str_chars("Math")) {
        Some(UcdProperty::Math)
    } else if chars_equal(&n, &str_chars("Noncharacter_Code_Point")) {
        Some(UcdProperty::NoncharacterCodePoint)
    } else if chars_equal(&n, &str_chars("Other_Alphabetic")) {
        Some(UcdProperty::OtherAlphabetic)
    } else if chars_equal(&n, &str_chars("Other_Default_Ignorable_Code_Point")) {
        Some(UcdProperty::OtherDefaultIgnorableCodePoint)
    } else if chars_equal(&n, &str_chars("Other_Grapheme_Extend")) {
        Some(UcdProperty::OtherGraphemeExtend)
    } else if chars_equal(&n, &str_chars("Other_ID_Continue")) {
        Some(UcdProperty::OtherIdContinue)
    } else if chars_equal(&n, &str_chars("Other_ID_Start")) {
        Some(UcdProperty::OtherIdStart)
    } else if chars_equal(&n, &str_chars("Other_Lowercase")) {
        Some(UcdProperty::OtherLowercase)
    } else if chars_equal(&n, &str_chars("Other_Math")) {
        Some(UcdProperty::OtherMath)
    } else if chars_equal(&n, &str_chars("Other_Uppercase")) {
        Some(UcdProperty::OtherUppercase)
    } else if chars_equal(&n, &str_chars("Pattern_Syntax")) {
        Some(UcdProperty::PatternSyntax)
    } else if chars_equal(&n, &str_chars("Pattern_White_Space")) {
        Some(UcdProperty::PatternWhiteSpace)
    } else if chars_equal(&n, &str_chars("Prepended_Concatenation_Mark")) {
        Some(UcdProperty::PrependedConcatenationMark)
    } else if chars_equal(&n, &str_chars("Quotation_Mark")) {
        Some(UcdProperty::QuotationMark)
    } else if chars_equal(&n, &str_chars("Radical")) {
        Some(UcdProperty::Radical)
    } else if chars_equal(&n, &str_chars("Regional_Indicator")) {
        Some(UcdProperty::RegionalIndicator)
    } else if chars_equal(&n, &str_chars("Sentence_Terminal")) {
        Some(UcdProperty::SentenceTerminal)
    } else if chars_equal(&n, &str_chars("Soft_Dotted")) {
        Some(UcdProperty::SoftDotted)
    } else if chars_equal(&n, &str_chars("Terminal_Punctuation")) {
        Some(UcdProperty::TerminalPunctuation)
    } else if chars_equal(&n, &str_chars("Unified_Ideograph")) {
        Some(UcdProperty::UnifiedIdeograph)
    } else if chars_equal(&n, &str_chars("Uppercase")) {
        Some(UcdProperty::Uppercase)
    } else if chars_equal(&n, &str_chars("Variation_Selector")) {
        Some(UcdProperty::VariationSelector)
    } else if chars_equal(&n, &str_chars("White_Space")) {
        Some(UcdProperty::WhiteSpace)
    } else if chars_equal(&n, &str_chars("XID_Continue")) {
        Some(UcdProperty::XidContinue)
    } else if chars_equal(&n, &str_chars("XID_Start")) {
        Some(UcdProperty::XidStart)
    } else {
        None
    }
}

/// The name by which a named class refers to the property, `None` for the properties that no
/// named class names.
pub open spec fn property_name(p: UcdProperty) -> Option<Seq<char>> {
    match p {
        UcdProperty::Alphabetic => Some("Alphabetic"@),
        UcdProperty::AsciiHexDigit => Some("ASCII_Hex_Digit"@),
        UcdProperty::BidiControl => Some("Bidi_Control"@),
        UcdProperty::CaseIgnorable => Some("Case_Ignorable"@),
        UcdProperty::Cased => Some("Cased"@),
        UcdProperty::CompositionExclusion => Some("Composition_Exclusion"@),
        UcdProperty::Dash => Some("Dash"@),
        UcdProperty::DefaultIgnorableCodePoint => Some("Default_Ignorable_Code_Point"@),
        UcdProperty::Deprecated => Some("Deprecated"@),
        UcdProperty::Diacritic => Some("Diacritic"@),
        UcdProperty::EmojiComponent => Some("Emoji_Component"@),
        UcdProperty::EmojiModifierBase => Some("Emoji_Modifier_Base"@),
        UcdProperty::EmojiModifier => Some("Emoji_Modifier"@),
        UcdProperty::EmojiPresentation => Some("Emoji_Presentation"@),
        UcdProperty::Emoji => Some("Emoji"@),
        UcdProperty::ExtendedPictographic => Some("Extended_Pictographic"@),
        UcdProperty::Extender => Some("Extender"@),
        UcdProperty::FullCompositionExclusion => Some("Full_Composition_Exclusion"@),
        UcdProperty::GraphemeExtend => Some("Grapheme_Extend"@),
        UcdProperty::HexDigit => Some("Hex_Digit"@),
        UcdProperty::Hyphen => Some("Hyphen"@),
        UcdProperty::IdContinue => Some("ID_Continue"@),
        UcdProperty::IdStart => Some("ID_Start"@),
        UcdProperty::Ideographic => Some("Ideographic"@),
        UcdProperty::IdsBinaryOperator => Some("IDS_Binary_Operator"@),
        UcdProperty::IdsTrinaryOperator => Some("IDS_Trinary_Operator"@),
        UcdProperty::JoinControl => Some("Join_Control"@),
        UcdProperty::LogicalOrderException => Some("Logical_Order_Exception"@),
        UcdProperty::Lowercase => Some("Lowercase"@),
        UcdProperty::Math => Some("Math"@),
        UcdProperty::NoncharacterCodePoint => Some("Noncharacter_Code_Point"@),
        UcdProperty::OtherAlphabetic => Some("Other_Alphabetic"@),
        UcdProperty::OtherDefaultIgnorableCodePoint => Some("Other_Default_Ignorable_Code_Point"@),
        UcdProperty::OtherGraphemeExtend => Some("Other_Grapheme_Extend"@),
        UcdProperty::OtherIdContinue => Some("Other_ID_Continue"@),
        UcdProperty::OtherIdStart => Some("Other_ID_Start"@),
        UcdProperty::OtherLowercase => Some("Other_Lowercase"@),
        UcdProperty::OtherMath => Some("Other_Math"@),
        UcdProperty::OtherUppercase => Some("Other_Uppercase"@),
        UcdProperty::PatternSyntax => Some("Pattern_Syntax"@),
        UcdProperty::PatternWhiteSpace => Some("Pattern_White_Space"@),
        UcdProperty::PrependedConcatenationMark => Some("Prepended_Concatenation_Mark"@),
        UcdProperty::QuotationMark => Some("Quotation_Mark"@),
        UcdProperty::Radical => Some("Radical"@),
        UcdProperty::RegionalIndicator => Some("Regional_Indicator"@),
        UcdProperty::SentenceTerminal => Some("Sentence_Terminal"@),
        UcdProperty::SoftDotted => Some("Soft_Dotted"@),
        UcdProperty::TerminalPunctuation => Some("Terminal_Punctuation"@),
        UcdProperty::UnifiedIdeograph => Some("Unified_Ideograph"@),
        UcdProperty::Uppercase => Some("Uppercase"@),
        UcdProperty::VariationSelector => Some("Variation_Selector"@),
        UcdProperty::WhiteSpace => Some("White_Space"@),
        UcdProperty::XidContinue => Some("XID_Continue"@),
        UcdProperty::XidStart => Some("XID_Start"@),
        _ => None,
    }
}

impl UcdProperty {
    /// The name by which a named class refers to the property, as in `\p{Alphabetic}`; `None`
    /// for the properties that no named class names.
    pub fn class_name(&self) -> (r: Option<&'static str>)
        ensures
            match r {
                Some(s) => property_name(*self) == Some(s@),
                None => property_name(*self) is None,
            },
    {
        match self {
            UcdProperty::Alphabetic => Some("Alphabetic"),
            UcdProperty::AsciiHexDigit => Some("ASCII_Hex_Digit"),
            UcdProperty::BidiControl => Some("Bidi_Control"),
            UcdProperty::CaseIgnorable => Some("Case_Ignorable"),
            UcdProperty::Cased => Some("Cased"),
            UcdProperty::CompositionExclusion => Some("Composition_Exclusion"),
            UcdProperty::Dash => Some("Dash"),
            UcdProperty::DefaultIgnorableCodePoint => Some("Default_Ignorable_Code_Point"),
            UcdProperty::Deprecated => Some("Deprecated"),
            UcdProperty::Diacritic => Some("Diacritic"),
            UcdProperty::EmojiComponent => Some("Emoji_Component"),
            UcdProperty::EmojiModifierBase => Some("Emoji_Modifier_Base"),
            UcdProperty::EmojiModifier => Some("Emoji_Modifier"),
            UcdProperty::EmojiPresentation => Some("Emoji_Presentation"),
            UcdProperty::Emoji => Some("Emoji"),
            UcdProperty::ExtendedPictographic => Some("Extended_Pictographic"),
            UcdProperty::Extender => Some("Extender"),
            UcdProperty::FullCompositionExclusion => Some("Full_Composition_Exclusion"),
            UcdProperty::GraphemeExtend => Some("Grapheme_Extend"),
            UcdProperty::HexDigit => Some("Hex_Digit"),
            UcdProperty::Hyphen => Some("Hyphen"),
            UcdProperty::IdContinue => Some("ID_Continue"),
            UcdProperty::IdStart => Some("ID_Start"),
            UcdProperty::Ideographic => Some("Ideographic"),
            UcdProperty::IdsBinaryOperator => Some("IDS_Binary_Operator"),
            UcdProperty::IdsTrinaryOperator => Some("IDS_Trinary_Operator"),
            UcdProperty::JoinControl => Some("Join_Control"),
            UcdProperty::LogicalOrderException => Some("Logical_Order_Exception"),
            UcdProperty::Lowercase => Some("Lowercase"),
            UcdProperty::Math => Some("Math"),
            UcdProperty::NoncharacterCodePoint => Some("Noncharacter_Code_Point"),
            UcdProperty::OtherAlphabetic => Some("Other_Alphabetic"),
            UcdProperty::OtherDefaultIgnorableCodePoint => Some("Other_Default_Ignorable_Code_Point"),
            UcdProperty::OtherGraphemeExtend => Some("Other_Grapheme_Extend"),
            UcdProperty::OtherIdContinue => Some("Other_ID_Continue"),
            UcdProperty::OtherIdStart => Some("Other_ID_Start"),
            UcdProperty::OtherLowercase => Some("Other_Lowercase"),
            UcdProperty::OtherMath => Some("Other_Math"),
            UcdProperty::OtherUppercase => Some("Other_Uppercase"),
            UcdProperty::PatternSyntax => Some("Pattern_Syntax"),
            UcdProperty::PatternWhiteSpace => Some("Pattern_White_Space"),
            UcdProperty::PrependedConcatenationMark => Some("Prepended_Concatenation_Mark"),
            UcdProperty::QuotationMark => Some("Quotation_Mark"),
            UcdProperty::Radical => Some("Radical"),
            UcdProperty::RegionalIndicator => Some("Regional_Indicator"),
            UcdProperty::SentenceTerminal => Some("Sentence_Terminal"),
            UcdProperty::SoftDotted => Some("Soft_Dotted"),
            UcdProperty::TerminalPunctuation => Some("Terminal_Punctuation"),
            UcdProperty::UnifiedIdeograph => Some("Unified_Ideograph"),
            UcdProperty::Uppercase => Some("Uppercase"),
            UcdProperty::VariationSelector => Some("Variation_Selector"),
            UcdProperty::WhiteSpace => Some("White_Space"),
            UcdProperty::XidContinue => Some("XID_Continue"),
            UcdProperty::XidStart => Some("XID_Start"),
            _ => None,
        }
    }
}

} // verus!
