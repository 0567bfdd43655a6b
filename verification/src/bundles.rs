//! Package bundles: names in a configuration's preset list that stand for
//! every package of a family (all digits, all of one script, everything).

use vstd::prelude::*;
use crate::glyph_db::Package;

verus! {

/// A family of packages selected together by one bundle name.
#[derive(Clone, Copy, Debug, PartialEq, Eq, Structural)]
pub enum Bundle {
    All,
    Digits,
    Math,
    Punctuation,
    Latin,
    Greek,
    Cyrillic,
    Armenian,
    Georgian,
    Hebrew,
    Cherokee,
    CanadianSyllabics,
    Kana,
    HangulJamo,
    Ethiopic,
    ArabicScript,
    Syriac,
    Thaana,
    Indic,
    ThaiLao,
    Tibetan,
    Myanmar,
    Khmer,
}

/// Package `p` belongs to bundle `b`.
pub open spec fn in_bundle(b: Bundle, p: Package) -> bool {
    match b {
        Bundle::All => true,
        Bundle::Digits => matches!(p, Package::DigitsAscii | Package::DigitsArabicIndic | Package::DigitsExtendedArabicIndic | Package::DigitsDevanagari | Package::DigitsBengali | Package::DigitsGurmukhi | Package::DigitsGujarati | Package::DigitsOdia | Package::DigitsTamil | Package::DigitsTelugu | Package::DigitsKannada | Package::DigitsMalayalam | Package::DigitsSinhala | Package::DigitsThai | Package::DigitsLao | Package::DigitsTibetan | Package::DigitsMyanmar | Package::DigitsKhmer | Package::DigitsSuperscriptCore | Package::DigitsSubscriptCore),
        Bundle::Math => matches!(p, Package::MathBasicArithmetic | Package::MathFullwidthBasicEastAsian | Package::MathArabicNumericSymbols | Package::MathTypographicVariants | Package::MathAlgebraCore | Package::MathSetRelations | Package::MathCalculusCore | Package::MathLogicCore | Package::MathArrowsBasic | Package::MathArrowsExtended | Package::MathDelimitersExtended | Package::MathOperatorsExtended | Package::MathDoubleStruckSets),
        Bundle::Punctuation => matches!(p, Package::PunctuationWordBasicLatin | Package::PunctuationUnderscoreBasic | Package::PunctuationUnderscoreExtended | Package::PunctuationSentenceBasicLatin | Package::PunctuationSpanishExtras | Package::PunctuationGreekAnoTeleia | Package::PunctuationHebrewCore | Package::PunctuationArabicCore | Package::PunctuationDevanagariCore | Package::PunctuationJapaneseCore | Package::PunctuationThaiCore | Package::PunctuationLaoCore | Package::PunctuationTibetanCore | Package::PunctuationMyanmarCore | Package::PunctuationKhmerCore | Package::PunctuationDashesBasic | Package::PunctuationDashesExtended | Package::PunctuationDashesAll),
        Bundle::Latin => matches!(p, Package::LatinAsciiUpper | Package::LatinAsciiLower | Package::SpanishCoreUpper | Package::SpanishCoreLower | Package::FrenchAccentsUpper | Package::FrenchAccentsLower | Package::GermanExtrasUpper | Package::GermanExtrasLower | Package::ItalianCoreUpper | Package::ItalianCoreLower | Package::PortugueseCoreUpper | Package::PortugueseCoreLower | Package::DanishNorwegianUpper | Package::DanishNorwegianLower | Package::SwedishUpper | Package::SwedishLower | Package::IcelandicUpper | Package::IcelandicLower | Package::LithuanianUpper | Package::LithuanianLower | Package::LatvianUpper | Package::LatvianLower | Package::CzechUpper | Package::CzechLower | Package::SlovakUpper | Package::SlovakLower | Package::SloveneBCSUpper | Package::SloveneBCSLower | Package::HungarianUpper | Package::HungarianLower | Package::PolishUpper | Package::PolishLower | Package::RomanianUpper | Package::RomanianLower | Package::WelshUpper | Package::WelshLower | Package::GaelicUpper | Package::GaelicLower | Package::MalteseUpper | Package::MalteseLower | Package::TurkishAzeriUpper | Package::TurkishAzeriLower | Package::GreenlandicUpper | Package::GreenlandicLower | Package::LatinLigaturesUpper | Package::LatinLigaturesLower | Package::LatinDigraphsCommon | Package::LatinDigraphsCatalan | Package::LatinDigraphsMaltese | Package::LatinDigraphsAll | Package::LatinPinyinUpper | Package::LatinPinyinLower | Package::LatinIpaCore | Package::LatinIpaModifiers | Package::LatinClicks | Package::EsperantoUpper | Package::EsperantoLower | Package::VietnameseUpper | Package::VietnameseLower | Package::YorubaUpper | Package::YorubaLower | Package::KikuyuUpper | Package::KikuyuLower | Package::LatinSalishUpper | Package::LatinSalishLower | Package::LatinExtendedOgonekUpper | Package::LatinExtendedOgonekLower | Package::RomanianLegacyCedillaUpper | Package::RomanianLegacyCedillaLower | Package::LatinAfricanUpper | Package::LatinAfricanLower | Package::YorubaTonesUpper | Package::YorubaTonesLower),
        Bundle::Greek => matches!(p, Package::GreekCaps | Package::GreekLowerBase | Package::GreekMonotonicMarksUpper | Package::GreekMonotonicMarksLower),
        Bundle::Cyrillic => matches!(p, Package::CyrillicRuCaps | Package::CyrillicRuLower | Package::CyrillicUkCaps | Package::CyrillicUkLower | Package::CyrillicBeCaps | Package::CyrillicBeLower | Package::CyrillicSrMeCaps | Package::CyrillicSrMeLower | Package::CyrillicMkCaps | Package::CyrillicMkLower),
        Bundle::Armenian => matches!(p, Package::ArmenianCaps | Package::ArmenianLower),
        Bundle::Georgian => matches!(p, Package::GeorgianMkhedruli | Package::GeorgianMtavruli),
        Bundle::Hebrew => matches!(p, Package::Hebrew),
        Bundle::Cherokee => matches!(p, Package::CherokeeUpper | Package::CherokeeSmall),
        Bundle::CanadianSyllabics => matches!(p, Package::InuktitutCore | Package::CreeCore),
        Bundle::Kana => matches!(p, Package::Hiragana | Package::Katakana),
        Bundle::HangulJamo => matches!(p, Package::HangulJamoL | Package::HangulJamoV | Package::HangulJamoT | Package::HangulJamoAll),
        Bundle::Ethiopic => matches!(p, Package::EthiopicCore),
        Bundle::ArabicScript => matches!(p, Package::ArabicCore | Package::PersianUrduExtras),
        Bundle::Syriac => matches!(p, Package::SyriacCore),
        Bundle::Thaana => matches!(p, Package::ThaanaCore),
        Bundle::Indic => matches!(p, Package::DevanagariCore | Package::BengaliCore | Package::GurmukhiCore | Package::GujaratiCore | Package::OdiaCore | Package::TamilCore | Package::TeluguCore | Package::KannadaCore | Package::MalayalamCore | Package::SinhalaCore),
        Bundle::ThaiLao => matches!(p, Package::ThaiCore | Package::LaoCore),
        Bundle::Tibetan => matches!(p, Package::TibetanCore),
        Bundle::Myanmar => matches!(p, Package::MyanmarCore),
        Bundle::Khmer => matches!(p, Package::KhmerCore),
    }
}

/// Package `p` belongs to bundle `b`.
pub fn bundle_contains(b: Bundle, p: Package) -> (r: bool)
    ensures
        r == in_bundle(b, p),
{
    match b {
        Bundle::All => true,
        Bundle::Digits => matches!(p, Package::DigitsAscii | Package::DigitsArabicIndic | Package::DigitsExtendedArabicIndic | Package::DigitsDevanagari | Package::DigitsBengali | Package::DigitsGurmukhi | Package::DigitsGujarati | Package::DigitsOdia | Package::DigitsTamil | Package::DigitsTelugu | Package::DigitsKannada | Package::DigitsMalayalam | Package::DigitsSinhala | Package::DigitsThai | Package::DigitsLao | Package::DigitsTibetan | Package::DigitsMyanmar | Package::DigitsKhmer | Package::DigitsSuperscriptCore | Package::DigitsSubscriptCore),
        Bundle::Math => matches!(p, Package::MathBasicArithmetic | Package::MathFullwidthBasicEastAsian | Package::MathArabicNumericSymbols | Package::MathTypographicVariants | Package::MathAlgebraCore | Package::MathSetRelations | Package::MathCalculusCore | Package::MathLogicCore | Package::MathArrowsBasic | Package::MathArrowsExtended | Package::MathDelimitersExtended | Package::MathOperatorsExtended | Package::MathDoubleStruckSets),
        Bundle::Punctuation => matches!(p, Package::PunctuationWordBasicLatin | Package::PunctuationUnderscoreBasic | Package::PunctuationUnderscoreExtended | Package::PunctuationSentenceBasicLatin | Package::PunctuationSpanishExtras | Package::PunctuationGreekAnoTeleia | Package::PunctuationHebrewCore | Package::PunctuationArabicCore | Package::PunctuationDevanagariCore | Package::PunctuationJapaneseCore | Package::PunctuationThaiCore | Package::PunctuationLaoCore | Package::PunctuationTibetanCore | Package::PunctuationMyanmarCore | Package::PunctuationKhmerCore | Package::PunctuationDashesBasic | Package::PunctuationDashesExtended | Package::PunctuationDashesAll),
        Bundle::Latin => matches!(p, Package::LatinAsciiUpper | Package::LatinAsciiLower | Package::SpanishCoreUpper | Package::SpanishCoreLower | Package::FrenchAccentsUpper | Package::FrenchAccentsLower | Package::GermanExtrasUpper | Package::GermanExtrasLower | Package::ItalianCoreUpper | Package::ItalianCoreLower | Package::PortugueseCoreUpper | Package::PortugueseCoreLower | Package::DanishNorwegianUpper | Package::DanishNorwegianLower | Package::SwedishUpper | Package::SwedishLower | Package::IcelandicUpper | Package::IcelandicLower | Package::LithuanianUpper | Package::LithuanianLower | Package::LatvianUpper | Package::LatvianLower | Package::CzechUpper | Package::CzechLower | Package::SlovakUpper | Package::SlovakLower | Package::SloveneBCSUpper | Package::SloveneBCSLower | Package::HungarianUpper | Package::HungarianLower | Package::PolishUpper | Package::PolishLower | Package::RomanianUpper | Package::RomanianLower | Package::WelshUpper | Package::WelshLower | Package::GaelicUpper | Package::GaelicLower | Package::MalteseUpper | Package::MalteseLower | Package::TurkishAzeriUpper | Package::TurkishAzeriLower | Package::GreenlandicUpper | Package::GreenlandicLower | Package::LatinLigaturesUpper | Package::LatinLigaturesLower | Package::LatinDigraphsCommon | Package::LatinDigraphsCatalan | Package::LatinDigraphsMaltese | Package::LatinDigraphsAll | Package::LatinPinyinUpper | Package::LatinPinyinLower | Package::LatinIpaCore | Package::LatinIpaModifiers | Package::LatinClicks | Package::EsperantoUpper | Package::EsperantoLower | Package::VietnameseUpper | Package::VietnameseLower | Package::YorubaUpper | Package::YorubaLower | Package::KikuyuUpper | Package::KikuyuLower | Package::LatinSalishUpper | Package::LatinSalishLower | Package::LatinExtendedOgonekUpper | Package::LatinExtendedOgonekLower | Package::RomanianLegacyCedillaUpper | Package::RomanianLegacyCedillaLower | Package::LatinAfricanUpper | Package::LatinAfricanLower | Package::YorubaTonesUpper | Package::YorubaTonesLower),
        Bundle::Greek => matches!(p, Package::GreekCaps | Package::GreekLowerBase | Package::GreekMonotonicMarksUpper | Package::GreekMonotonicMarksLower),
        Bundle::Cyrillic => matches!(p, Package::CyrillicRuCaps | Package::CyrillicRuLower | Package::CyrillicUkCaps | Package::CyrillicUkLower | Package::CyrillicBeCaps | Package::CyrillicBeLower | Package::CyrillicSrMeCaps | Package::CyrillicSrMeLower | Package::CyrillicMkCaps | Package::CyrillicMkLower),
        Bundle::Armenian => matches!(p, Package::ArmenianCaps | Package::ArmenianLower),
        Bundle::Georgian => matches!(p, Package::GeorgianMkhedruli | Package::GeorgianMtavruli),
        Bundle::Hebrew => matches!(p, Package::Hebrew),
        Bundle::Cherokee => matches!(p, Package::CherokeeUpper | Package::CherokeeSmall),
        Bundle::CanadianSyllabics => matches!(p, Package::InuktitutCore | Package::CreeCore),
        Bundle::Kana => matches!(p, Package::Hiragana | Package::Katakana),
        Bundle::HangulJamo => matches!(p, Package::HangulJamoL | Package::HangulJamoV | Package::HangulJamoT | Package::HangulJamoAll),
        Bundle::Ethiopic => matches!(p, Package::EthiopicCore),
        Bundle::ArabicScript => matches!(p, Package::ArabicCore | Package::PersianUrduExtras),
        Bundle::Syriac => matches!(p, Package::SyriacCore),
        Bundle::Thaana => matches!(p, Package::ThaanaCore),
        Bundle::Indic => matches!(p, Package::DevanagariCore | Package::BengaliCore | Package::GurmukhiCore | Package::GujaratiCore | Package::OdiaCore | Package::TamilCore | Package::TeluguCore | Package::KannadaCore | Package::MalayalamCore | Package::SinhalaCore),
        Bundle::ThaiLao => matches!(p, Package::ThaiCore | Package::LaoCore),
        Bundle::Tibetan => matches!(p, Package::TibetanCore),
        Bundle::Myanmar => matches!(p, Package::MyanmarCore),
        Bundle::Khmer => matches!(p, Package::KhmerCore),
    }
}

/// The bundle names accepted in a preset list.
pub open spec fn bundle_name_table() -> Seq<(&'static str, Bundle)> {
    seq![
        ("all_packs", Bundle::All),
        ("all_packages", Bundle::All),
        ("everything", Bundle::All),
        ("digits_all", Bundle::Digits),
        ("numbers_all", Bundle::Digits),
        ("math_all", Bundle::Math),
        ("punct_all", Bundle::Punctuation),
        ("punctuation_all", Bundle::Punctuation),
        ("latin_all", Bundle::Latin),
        ("greek_all", Bundle::Greek),
        ("cyrillic_all", Bundle::Cyrillic),
        ("armenian_all", Bundle::Armenian),
        ("georgian_all", Bundle::Georgian),
        ("hebrew_all", Bundle::Hebrew),
        ("cherokee_all", Bundle::Cherokee),
        ("canadian_syllabics_all", Bundle::CanadianSyllabics),
        ("kana_all", Bundle::Kana),
        ("hangul_jamo_all", Bundle::HangulJamo),
        ("ethiopic_all", Bundle::Ethiopic),
        ("arabic_script_all", Bundle::ArabicScript),
        ("syriac_all", Bundle::Syriac),
        ("thaana_all", Bundle::Thaana),
        ("indic_all", Bundle::Indic),
        ("thai_lao_all", Bundle::ThaiLao),
        ("tibetan_all", Bundle::Tibetan),
        ("myanmar_all", Bundle::Myanmar),
        ("khmer_all", Bundle::Khmer),
    ]
}

/// The bundle names accepted in a preset list.
pub fn bundle_names() -> (r: &'static [(&'static str, Bundle)])
    ensures
        r@ == bundle_name_table(),
{
    &[
        ("all_packs", Bundle::All),
        ("all_packages", Bundle::All),
        ("everything", Bundle::All),
        ("digits_all", Bundle::Digits),
        ("numbers_all", Bundle::Digits),
        ("math_all", Bundle::Math),
        ("punct_all", Bundle::Punctuation),
        ("punctuation_all", Bundle::Punctuation),
        ("latin_all", Bundle::Latin),
        ("greek_all", Bundle::Greek),
        ("cyrillic_all", Bundle::Cyrillic),
        ("armenian_all", Bundle::Armenian),
        ("georgian_all", Bundle::Georgian),
        ("hebrew_all", Bundle::Hebrew),
        ("cherokee_all", Bundle::Cherokee),
        ("canadian_syllabics_all", Bundle::CanadianSyllabics),
        ("kana_all", Bundle::Kana),
        ("hangul_jamo_all", Bundle::HangulJamo),
        ("ethiopic_all", Bundle::Ethiopic),
        ("arabic_script_all", Bundle::ArabicScript),
        ("syriac_all", Bundle::Syriac),
        ("thaana_all", Bundle::Thaana),
        ("indic_all", Bundle::Indic),
        ("thai_lao_all", Bundle::ThaiLao),
        ("tibetan_all", Bundle::Tibetan),
        ("myanmar_all", Bundle::Myanmar),
        ("khmer_all", Bundle::Khmer),
    ]
}

/// The Latin packages whose presence enables typographic ligature tokens.
pub open spec fn is_ligature_host(p: Package) -> bool {
    matches!(p, Package::LatinAsciiUpper | Package::LatinAsciiLower | Package::FrenchAccentsUpper | Package::FrenchAccentsLower | Package::GermanExtrasUpper | Package::GermanExtrasLower | Package::ItalianCoreUpper | Package::ItalianCoreLower | Package::PortugueseCoreUpper | Package::PortugueseCoreLower | Package::LatinLigaturesUpper | Package::LatinLigaturesLower | Package::SpanishCoreUpper | Package::SpanishCoreLower)
}

/// The Latin packages whose presence enables typographic ligature tokens.
pub fn ligature_host(p: Package) -> (r: bool)
    ensures
        r == is_ligature_host(p),
{
    matches!(p, Package::LatinAsciiUpper | Package::LatinAsciiLower | Package::FrenchAccentsUpper | Package::FrenchAccentsLower | Package::GermanExtrasUpper | Package::GermanExtrasLower | Package::ItalianCoreUpper | Package::ItalianCoreLower | Package::PortugueseCoreUpper | Package::PortugueseCoreLower | Package::LatinLigaturesUpper | Package::LatinLigaturesLower | Package::SpanishCoreUpper | Package::SpanishCoreLower)
}

} // verus!
