//! Plural categories: their names, and the conversion of keys to them.

use vstd::prelude::*;
use icu_locale_core::Locale;
use icu_plurals::{PluralRuleType, PluralRules};
use crate::ast::{PluralCase, PluralCategory, SelectCase};

verus! {

/// The name of each plural category.
pub open spec fn category_name(category: PluralCategory) -> Seq<char> {
    match category {
        PluralCategory::Zero => seq!['z', 'e', 'r', 'o'],
        PluralCategory::One => seq!['o', 'n', 'e'],
        PluralCategory::Two => seq!['t', 'w', 'o'],
        PluralCategory::Few => seq!['f', 'e', 'w'],
        PluralCategory::Many => seq!['m', 'a', 'n', 'y'],
        PluralCategory::Other => seq!['o', 't', 'h', 'e', 'r'],
    }
}

/// The plural category that a key names, if it names one.
pub open spec fn category_of(key: Seq<char>) -> Option<PluralCategory> {
    if key == category_name(PluralCategory::Zero) {
        Some(PluralCategory::Zero)
    } else if key == category_name(PluralCategory::One) {
        Some(PluralCategory::One)
    } else if key == category_name(PluralCategory::Two) {
        Some(PluralCategory::Two)
    } else if key == category_name(PluralCategory::Few) {
        Some(PluralCategory::Few)
    } else if key == category_name(PluralCategory::Many) {
        Some(PluralCategory::Many)
    } else if key == category_name(PluralCategory::Other) {
        Some(PluralCategory::Other)
    } else {
        None
    }
}

/// Calls `icu_plurals::PluralCategory::get_for_cldr_bytes` on the bytes of
/// `key`. That function compares its argument with the six names `zero`,
/// `one`, `two`, `few`, `many` and `other` and gives `None` for anything
/// else; the contract says so over the characters of `key`.
#[verifier::external_body]
pub(crate) fn category_for_key(key: &str) -> (r: Option<PluralCategory>)
    ensures
        r == category_of(key@),
{
    match icu_plurals::PluralCategory::get_for_cldr_bytes(key.as_bytes()) {
        Some(icu_plurals::PluralCategory::Zero) => Some(PluralCategory::Zero),
        Some(icu_plurals::PluralCategory::One) => Some(PluralCategory::One),
        Some(icu_plurals::PluralCategory::Two) => Some(PluralCategory::Two),
        Some(icu_plurals::PluralCategory::Few) => Some(PluralCategory::Few),
        Some(icu_plurals::PluralCategory::Many) => Some(PluralCategory::Many),
        Some(icu_plurals::PluralCategory::Other) => Some(PluralCategory::Other),
        None => None,
    }
}

/// The plural category of the number `n` in the locale `locale`, cardinal or
/// ordinal, as `icu_plurals::PluralRules::category_for` gives it under the
/// rules that `icu_plurals::PluralRules::try_new` makes for that locale from
/// the data compiled into the crate; `None` where `locale` is no locale tag
/// or no rules can be made for it.
pub uninterp spec fn cldr_category(locale: Seq<char>, ordinal: bool, n: int) -> Option<
    PluralCategory,
>;

/// Calls `icu_plurals::PluralRules::category_for` on `n`, on the rules that
/// `icu_plurals::PluralRules::try_new` makes for the locale that
/// `icu_locale_core::Locale::try_from_str` reads from `locale`. Nothing is
/// proved of the rules: the contract only gives the answer a name. It
/// depends on the arguments alone, since the rules are compiled in.
#[verifier::external_body]
pub(crate) fn plural_category(locale: &str, ordinal: bool, n: i64) -> (r: Option<PluralCategory>)
    ensures
        r == cldr_category(locale@, ordinal, n as int),
{
    let kind = if ordinal { PluralRuleType::Ordinal } else { PluralRuleType::Cardinal };
    let locale = Locale::try_from_str(locale).ok()?;
    let rules = PluralRules::try_new(locale.into(), kind.into()).ok()?;
    Some(match rules.category_for(n) {
        icu_plurals::PluralCategory::Zero => PluralCategory::Zero,
        icu_plurals::PluralCategory::One => PluralCategory::One,
        icu_plurals::PluralCategory::Two => PluralCategory::Two,
        icu_plurals::PluralCategory::Few => PluralCategory::Few,
        icu_plurals::PluralCategory::Many => PluralCategory::Many,
        icu_plurals::PluralCategory::Other => PluralCategory::Other,
    })
}

impl PluralCase {
    /// Turns a case with a textual key into a plural case. Fails if the key
    /// names no plural category.
    pub fn try_from(value: SelectCase) -> (r: Result<PluralCase, ()>)
        ensures
            match category_of(value.key@) {
                Some(category) => r == Ok::<PluralCase, ()>(
                    (PluralCase { key: category, tokens: value.tokens }),
                ),
                None => r is Err,
            },
    {
        match category_for_key(value.key.as_str()) {
            Some(category) => Ok(PluralCase { key: category, tokens: value.tokens }),
            None => Err(()),
        }
    }
}

} // verus!
