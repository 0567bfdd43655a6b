//! The tables that rewrite rules are drawn from: spellings, case pairs,
//! confusable letters, accented letters and combining marks.

use vstd::prelude::*;
use crate::glyph_db::Package;

verus! {

/// Letters a sign spells out in Latin, lower and capital form with their spellings.
pub open spec fn signage_bicase_head() -> Seq<(&'static str, &'static str, &'static str, &'static str)> {
    seq![
        ("æ", "Æ", "ae", "AE"), ("œ", "Œ", "oe", "OE"), ("ß", "ẞ", "ss", "SS"),
        ("ĳ", "Ĳ", "ij", "IJ"), ("ä", "Ä", "ae", "AE"), ("ö", "Ö", "oe", "OE"),
        ("ü", "Ü", "ue", "UE"), ("þ", "Þ", "th", "TH"), ("ð", "Ð", "th", "TH"),
    ]
}

/// The rows of [`signage_bicase_head`].
pub fn signage_bicase_head_rows() -> (r: &'static [(&'static str, &'static str, &'static str, &'static str)])
    ensures
        r@ == signage_bicase_head(),
{
    &[
        ("æ", "Æ", "ae", "AE"), ("œ", "Œ", "oe", "OE"), ("ß", "ẞ", "ss", "SS"),
        ("ĳ", "Ĳ", "ij", "IJ"), ("ä", "Ä", "ae", "AE"), ("ö", "Ö", "oe", "OE"),
        ("ü", "Ü", "ue", "UE"), ("þ", "Þ", "th", "TH"), ("ð", "Ð", "th", "TH"),
    ]
}

/// Caseless letters a sign spells out in Latin, with lower and capital spelling.
pub open spec fn signage_mono() -> Seq<(&'static str, &'static str, &'static str)> {
    seq![
        ("ɶ", "oe", "OE"), ("ɡ", "g", "G"), ("ə", "e", "E"), ("ʷ", "w", "W"),
    ]
}

/// The rows of [`signage_mono`].
pub fn signage_mono_rows() -> (r: &'static [(&'static str, &'static str, &'static str)])
    ensures
        r@ == signage_mono(),
{
    &[
        ("ɶ", "oe", "OE"), ("ɡ", "g", "G"), ("ə", "e", "E"), ("ʷ", "w", "W"),
    ]
}

/// Umlauts written with a combining diaeresis, spelled out like their precomposed forms.
pub open spec fn signage_bicase_tail() -> Seq<(&'static str, &'static str, &'static str, &'static str)> {
    seq![
        ("a\u{0308}", "A\u{0308}", "ae", "AE"), ("o\u{0308}", "O\u{0308}", "oe", "OE"), ("u\u{0308}", "U\u{0308}", "ue", "UE"),
    ]
}

/// The rows of [`signage_bicase_tail`].
pub fn signage_bicase_tail_rows() -> (r: &'static [(&'static str, &'static str, &'static str, &'static str)])
    ensures
        r@ == signage_bicase_tail(),
{
    &[
        ("a\u{0308}", "A\u{0308}", "ae", "AE"), ("o\u{0308}", "O\u{0308}", "oe", "OE"), ("u\u{0308}", "U\u{0308}", "ue", "UE"),
    ]
}

/// Typographic ligatures and the letters they join.
pub open spec fn ligature_splits() -> Seq<(&'static str, &'static str)> {
    seq![
        ("ﬀ", "ff"), ("ﬁ", "fi"), ("ﬂ", "fl"), ("ﬃ", "ffi"), ("ﬄ", "ffl"),
    ]
}

/// The rows of [`ligature_splits`].
pub fn ligature_splits_rows() -> (r: &'static [(&'static str, &'static str)])
    ensures
        r@ == ligature_splits(),
{
    &[
        ("ﬀ", "ff"), ("ﬁ", "fi"), ("ﬂ", "fl"), ("ﬃ", "ffi"), ("ﬄ", "ffl"),
    ]
}

/// Letter runs and the typographic ligature that joins them, longest first.
pub open spec fn ligature_joins() -> Seq<(&'static str, &'static str)> {
    seq![
        ("ffi", "ﬃ"), ("ffl", "ﬄ"), ("ff", "ﬀ"), ("fi", "ﬁ"), ("fl", "ﬂ"),
    ]
}

/// The rows of [`ligature_joins`].
pub fn ligature_joins_rows() -> (r: &'static [(&'static str, &'static str)])
    ensures
        r@ == ligature_joins(),
{
    &[
        ("ffi", "ﬃ"), ("ffl", "ﬄ"), ("ff", "ﬀ"), ("fi", "ﬁ"), ("fl", "ﬂ"),
    ]
}

/// Hebrew final forms and their base letters.
pub open spec fn hebrew_finals() -> Seq<(&'static str, &'static str)> {
    seq![
        ("ך", "כ"), ("ם", "מ"), ("ן", "נ"), ("ף", "פ"), ("ץ", "צ"),
    ]
}

/// The rows of [`hebrew_finals`].
pub fn hebrew_finals_rows() -> (r: &'static [(&'static str, &'static str)])
    ensures
        r@ == hebrew_finals(),
{
    &[
        ("ך", "כ"), ("ם", "מ"), ("ן", "נ"), ("ף", "פ"), ("ץ", "צ"),
    ]
}

/// Letters of the other Cyrillic orthographies and the Russian spelling that stands in for them.
pub open spec fn cyrillic_subset_table() -> Seq<(&'static str, &'static str)> {
    seq![
        ("Ґ", "Г"), ("ґ", "г"), ("Є", "Е"), ("є", "е"), ("І", "И"), ("і", "и"),
        ("Ї", "ЙИ"), ("ї", "йи"), ("Ў", "У"), ("ў", "у"), ("Ј", "Й"), ("ј", "й"),
        ("Љ", "ЛЬ"), ("љ", "ль"), ("Њ", "НЬ"), ("њ", "нь"), ("Ђ", "ДЬ"), ("ђ", "дь"),
        ("Ћ", "ТЬ"), ("ћ", "ть"), ("Џ", "ДЖ"), ("џ", "дж"), ("Ѓ", "ГЬ"), ("ѓ", "гь"),
        ("Ќ", "КЬ"), ("ќ", "кь"), ("Ѕ", "З"), ("ѕ", "з"), ("Ѐ", "Е"), ("ѐ", "е"),
        ("Ѝ", "И"), ("ѝ", "и"),
    ]
}

/// The rows of [`cyrillic_subset_table`].
pub fn cyrillic_subset_table_rows() -> (r: &'static [(&'static str, &'static str)])
    ensures
        r@ == cyrillic_subset_table(),
{
    &[
        ("Ґ", "Г"), ("ґ", "г"), ("Є", "Е"), ("є", "е"), ("І", "И"), ("і", "и"),
        ("Ї", "ЙИ"), ("ї", "йи"), ("Ў", "У"), ("ў", "у"), ("Ј", "Й"), ("ј", "й"),
        ("Љ", "ЛЬ"), ("љ", "ль"), ("Њ", "НЬ"), ("њ", "нь"), ("Ђ", "ДЬ"), ("ђ", "дь"),
        ("Ћ", "ТЬ"), ("ћ", "ть"), ("Џ", "ДЖ"), ("џ", "дж"), ("Ѓ", "ГЬ"), ("ѓ", "гь"),
        ("Ќ", "КЬ"), ("ќ", "кь"), ("Ѕ", "З"), ("ѕ", "з"), ("Ѐ", "Е"), ("ѐ", "е"),
        ("Ѝ", "И"), ("ѝ", "и"),
    ]
}

/// Latin letters and the Cyrillic letters drawn alike.
pub open spec fn confusable_pairs() -> Seq<(&'static str, &'static str)> {
    seq![
        ("A", "А"), ("a", "а"), ("B", "В"), ("b", "в"), ("C", "С"), ("c", "с"),
        ("E", "Е"), ("e", "е"), ("H", "Н"), ("K", "К"), ("k", "к"), ("M", "М"),
        ("m", "м"), ("O", "О"), ("o", "о"), ("P", "Р"), ("p", "р"), ("T", "Т"),
        ("t", "т"), ("X", "Х"), ("x", "х"), ("Y", "У"), ("y", "у"),
    ]
}

/// The rows of [`confusable_pairs`].
pub fn confusable_pairs_rows() -> (r: &'static [(&'static str, &'static str)])
    ensures
        r@ == confusable_pairs(),
{
    &[
        ("A", "А"), ("a", "а"), ("B", "В"), ("b", "в"), ("C", "С"), ("c", "с"),
        ("E", "Е"), ("e", "е"), ("H", "Н"), ("K", "К"), ("k", "к"), ("M", "М"),
        ("m", "м"), ("O", "О"), ("o", "о"), ("P", "Р"), ("p", "р"), ("T", "Т"),
        ("t", "т"), ("X", "Х"), ("x", "х"), ("Y", "У"), ("y", "у"),
    ]
}

/// Accented capitals with the capital, then the small, base letter.
pub open spec fn accent_upper_table() -> Seq<(&'static str, &'static str, &'static str)> {
    seq![
        ("À", "A", "a"), ("Á", "A", "a"), ("Â", "A", "a"), ("Ã", "A", "a"), ("Ä", "A", "a"),
        ("Ā", "A", "a"), ("Ă", "A", "a"), ("Ą", "A", "a"), ("Å", "A", "a"), ("Ç", "C", "c"),
        ("Ć", "C", "c"), ("Ĉ", "C", "c"), ("Ċ", "C", "c"), ("Č", "C", "c"), ("Ď", "D", "d"),
        ("Đ", "D", "d"), ("È", "E", "e"), ("É", "E", "e"), ("Ê", "E", "e"), ("Ë", "E", "e"),
        ("Ē", "E", "e"), ("Ė", "E", "e"), ("Ę", "E", "e"), ("Ě", "E", "e"), ("Ĝ", "G", "g"),
        ("Ğ", "G", "g"), ("Ġ", "G", "g"), ("Ģ", "G", "g"), ("Ĥ", "H", "h"), ("Ħ", "H", "h"),
        ("Ì", "I", "i"), ("Í", "I", "i"), ("Î", "I", "i"), ("Ï", "I", "i"), ("Ī", "I", "i"),
        ("Į", "I", "i"), ("Ĩ", "I", "i"), ("Ĵ", "J", "j"), ("Ķ", "K", "k"), ("Ĺ", "L", "l"),
        ("Ļ", "L", "l"), ("Ľ", "L", "l"), ("Ł", "L", "l"), ("Ñ", "N", "n"), ("Ń", "N", "n"),
        ("Ņ", "N", "n"), ("Ň", "N", "n"), ("Ò", "O", "o"), ("Ó", "O", "o"), ("Ô", "O", "o"),
        ("Õ", "O", "o"), ("Ö", "O", "o"), ("Ō", "O", "o"), ("Ő", "O", "o"), ("Ø", "O", "o"),
        ("Ŕ", "R", "r"), ("Ř", "R", "r"), ("Ŗ", "R", "r"), ("Ś", "S", "s"), ("Ŝ", "S", "s"),
        ("Ş", "S", "s"), ("Š", "S", "s"), ("Ţ", "T", "t"), ("Ť", "T", "t"), ("Ŧ", "T", "t"),
        ("Ù", "U", "u"), ("Ú", "U", "u"), ("Û", "U", "u"), ("Ü", "U", "u"), ("Ū", "U", "u"),
        ("Ů", "U", "u"), ("Ų", "U", "u"), ("Ű", "U", "u"), ("Ũ", "U", "u"), ("Ý", "Y", "y"),
        ("Ÿ", "Y", "y"), ("Ź", "Z", "z"), ("Ż", "Z", "z"), ("Ž", "Z", "z"), ("Ǫ", "O", "o"),
        ("Ḵ", "K", "k"),
    ]
}

/// The rows of [`accent_upper_table`].
pub fn accent_upper_table_rows() -> (r: &'static [(&'static str, &'static str, &'static str)])
    ensures
        r@ == accent_upper_table(),
{
    &[
        ("À", "A", "a"), ("Á", "A", "a"), ("Â", "A", "a"), ("Ã", "A", "a"), ("Ä", "A", "a"),
        ("Ā", "A", "a"), ("Ă", "A", "a"), ("Ą", "A", "a"), ("Å", "A", "a"), ("Ç", "C", "c"),
        ("Ć", "C", "c"), ("Ĉ", "C", "c"), ("Ċ", "C", "c"), ("Č", "C", "c"), ("Ď", "D", "d"),
        ("Đ", "D", "d"), ("È", "E", "e"), ("É", "E", "e"), ("Ê", "E", "e"), ("Ë", "E", "e"),
        ("Ē", "E", "e"), ("Ė", "E", "e"), ("Ę", "E", "e"), ("Ě", "E", "e"), ("Ĝ", "G", "g"),
        ("Ğ", "G", "g"), ("Ġ", "G", "g"), ("Ģ", "G", "g"), ("Ĥ", "H", "h"), ("Ħ", "H", "h"),
        ("Ì", "I", "i"), ("Í", "I", "i"), ("Î", "I", "i"), ("Ï", "I", "i"), ("Ī", "I", "i"),
        ("Į", "I", "i"), ("Ĩ", "I", "i"), ("Ĵ", "J", "j"), ("Ķ", "K", "k"), ("Ĺ", "L", "l"),
        ("Ļ", "L", "l"), ("Ľ", "L", "l"), ("Ł", "L", "l"), ("Ñ", "N", "n"), ("Ń", "N", "n"),
        ("Ņ", "N", "n"), ("Ň", "N", "n"), ("Ò", "O", "o"), ("Ó", "O", "o"), ("Ô", "O", "o"),
        ("Õ", "O", "o"), ("Ö", "O", "o"), ("Ō", "O", "o"), ("Ő", "O", "o"), ("Ø", "O", "o"),
        ("Ŕ", "R", "r"), ("Ř", "R", "r"), ("Ŗ", "R", "r"), ("Ś", "S", "s"), ("Ŝ", "S", "s"),
        ("Ş", "S", "s"), ("Š", "S", "s"), ("Ţ", "T", "t"), ("Ť", "T", "t"), ("Ŧ", "T", "t"),
        ("Ù", "U", "u"), ("Ú", "U", "u"), ("Û", "U", "u"), ("Ü", "U", "u"), ("Ū", "U", "u"),
        ("Ů", "U", "u"), ("Ų", "U", "u"), ("Ű", "U", "u"), ("Ũ", "U", "u"), ("Ý", "Y", "y"),
        ("Ÿ", "Y", "y"), ("Ź", "Z", "z"), ("Ż", "Z", "z"), ("Ž", "Z", "z"), ("Ǫ", "O", "o"),
        ("Ḵ", "K", "k"),
    ]
}

/// Accented small letters with the small, then the capital, base letter.
pub open spec fn accent_lower_table() -> Seq<(&'static str, &'static str, &'static str)> {
    seq![
        ("à", "a", "A"), ("á", "a", "A"), ("â", "a", "A"), ("ã", "a", "A"), ("ä", "a", "A"),
        ("ā", "a", "A"), ("ă", "a", "A"), ("ą", "a", "A"), ("å", "a", "A"), ("ç", "c", "C"),
        ("ć", "c", "C"), ("ĉ", "c", "C"), ("ċ", "c", "C"), ("č", "c", "C"), ("ď", "d", "D"),
        ("đ", "d", "D"), ("è", "e", "E"), ("é", "e", "E"), ("ê", "e", "E"), ("ë", "e", "E"),
        ("ē", "e", "E"), ("ė", "e", "E"), ("ę", "e", "E"), ("ě", "e", "E"), ("ĝ", "g", "G"),
        ("ğ", "g", "G"), ("ġ", "g", "G"), ("ģ", "g", "G"), ("ĥ", "h", "H"), ("ħ", "h", "H"),
        ("ì", "i", "I"), ("í", "i", "I"), ("î", "i", "I"), ("ï", "i", "I"), ("ī", "i", "I"),
        ("į", "i", "I"), ("ĩ", "i", "I"), ("ı", "i", "I"), ("ĵ", "j", "J"), ("ķ", "k", "K"),
        ("ĺ", "l", "L"), ("ļ", "l", "L"), ("ľ", "l", "L"), ("ł", "l", "L"), ("ñ", "n", "N"),
        ("ń", "n", "N"), ("ņ", "n", "N"), ("ň", "n", "N"), ("ŋ", "n", "N"), ("ò", "o", "O"),
        ("ó", "o", "O"), ("ô", "o", "O"), ("õ", "o", "O"), ("ö", "o", "O"), ("ō", "o", "O"),
        ("ő", "o", "O"), ("ø", "o", "O"), ("ŕ", "r", "R"), ("ř", "r", "R"), ("ŗ", "r", "R"),
        ("ś", "s", "S"), ("ŝ", "s", "S"), ("ş", "s", "S"), ("š", "s", "S"), ("ţ", "t", "T"),
        ("ť", "t", "T"), ("ŧ", "t", "T"), ("ù", "u", "U"), ("ú", "u", "U"), ("û", "u", "U"),
        ("ü", "u", "U"), ("ū", "u", "U"), ("ů", "u", "U"), ("ų", "u", "U"), ("ű", "u", "U"),
        ("ũ", "u", "U"), ("ý", "y", "Y"), ("ÿ", "y", "Y"), ("ź", "z", "Z"), ("ż", "z", "Z"),
        ("ž", "z", "Z"), ("č", "c", "C"), ("ď", "d", "D"), ("ě", "e", "E"), ("ň", "n", "N"),
        ("ř", "r", "R"), ("š", "s", "S"), ("ť", "t", "T"), ("ů", "u", "U"), ("ž", "z", "Z"),
        ("ǫ", "o", "O"), ("ḵ", "k", "K"),
    ]
}

/// The rows of [`accent_lower_table`].
pub fn accent_lower_table_rows() -> (r: &'static [(&'static str, &'static str, &'static str)])
    ensures
        r@ == accent_lower_table(),
{
    &[
        ("à", "a", "A"), ("á", "a", "A"), ("â", "a", "A"), ("ã", "a", "A"), ("ä", "a", "A"),
        ("ā", "a", "A"), ("ă", "a", "A"), ("ą", "a", "A"), ("å", "a", "A"), ("ç", "c", "C"),
        ("ć", "c", "C"), ("ĉ", "c", "C"), ("ċ", "c", "C"), ("č", "c", "C"), ("ď", "d", "D"),
        ("đ", "d", "D"), ("è", "e", "E"), ("é", "e", "E"), ("ê", "e", "E"), ("ë", "e", "E"),
        ("ē", "e", "E"), ("ė", "e", "E"), ("ę", "e", "E"), ("ě", "e", "E"), ("ĝ", "g", "G"),
        ("ğ", "g", "G"), ("ġ", "g", "G"), ("ģ", "g", "G"), ("ĥ", "h", "H"), ("ħ", "h", "H"),
        ("ì", "i", "I"), ("í", "i", "I"), ("î", "i", "I"), ("ï", "i", "I"), ("ī", "i", "I"),
        ("į", "i", "I"), ("ĩ", "i", "I"), ("ı", "i", "I"), ("ĵ", "j", "J"), ("ķ", "k", "K"),
        ("ĺ", "l", "L"), ("ļ", "l", "L"), ("ľ", "l", "L"), ("ł", "l", "L"), ("ñ", "n", "N"),
        ("ń", "n", "N"), ("ņ", "n", "N"), ("ň", "n", "N"), ("ŋ", "n", "N"), ("ò", "o", "O"),
        ("ó", "o", "O"), ("ô", "o", "O"), ("õ", "o", "O"), ("ö", "o", "O"), ("ō", "o", "O"),
        ("ő", "o", "O"), ("ø", "o", "O"), ("ŕ", "r", "R"), ("ř", "r", "R"), ("ŗ", "r", "R"),
        ("ś", "s", "S"), ("ŝ", "s", "S"), ("ş", "s", "S"), ("š", "s", "S"), ("ţ", "t", "T"),
        ("ť", "t", "T"), ("ŧ", "t", "T"), ("ù", "u", "U"), ("ú", "u", "U"), ("û", "u", "U"),
        ("ü", "u", "U"), ("ū", "u", "U"), ("ů", "u", "U"), ("ų", "u", "U"), ("ű", "u", "U"),
        ("ũ", "u", "U"), ("ý", "y", "Y"), ("ÿ", "y", "Y"), ("ź", "z", "Z"), ("ż", "z", "Z"),
        ("ž", "z", "Z"), ("č", "c", "C"), ("ď", "d", "D"), ("ě", "e", "E"), ("ň", "n", "N"),
        ("ř", "r", "R"), ("š", "s", "S"), ("ť", "t", "T"), ("ů", "u", "U"), ("ž", "z", "Z"),
        ("ǫ", "o", "O"), ("ḵ", "k", "K"),
    ]
}

/// Latin packages whose capitals and small letters correspond position by position.
pub open spec fn latin_case_packages() -> Seq<(Package, Package)> {
    seq![
        (Package::LatinAsciiUpper, Package::LatinAsciiLower),
        (Package::SpanishCoreUpper, Package::SpanishCoreLower),
        (Package::FrenchAccentsUpper, Package::FrenchAccentsLower),
        (Package::GermanExtrasUpper, Package::GermanExtrasLower),
        (Package::ItalianCoreUpper, Package::ItalianCoreLower),
        (Package::PortugueseCoreUpper, Package::PortugueseCoreLower),
        (Package::DanishNorwegianUpper, Package::DanishNorwegianLower),
        (Package::SwedishUpper, Package::SwedishLower),
        (Package::IcelandicUpper, Package::IcelandicLower),
        (Package::LithuanianUpper, Package::LithuanianLower),
        (Package::LatvianUpper, Package::LatvianLower),
        (Package::CzechUpper, Package::CzechLower),
        (Package::SlovakUpper, Package::SlovakLower),
        (Package::SloveneBCSUpper, Package::SloveneBCSLower),
        (Package::HungarianUpper, Package::HungarianLower),
        (Package::PolishUpper, Package::PolishLower),
        (Package::RomanianUpper, Package::RomanianLower),
        (Package::WelshUpper, Package::WelshLower),
        (Package::GaelicUpper, Package::GaelicLower),
        (Package::MalteseUpper, Package::MalteseLower),
        (Package::TurkishAzeriUpper, Package::TurkishAzeriLower),
        (Package::LatinPinyinUpper, Package::LatinPinyinLower),
    ]
}

/// The rows of [`latin_case_packages`].
pub fn latin_case_packages_rows() -> (r: &'static [(Package, Package)])
    ensures
        r@ == latin_case_packages(),
{
    &[
        (Package::LatinAsciiUpper, Package::LatinAsciiLower),
        (Package::SpanishCoreUpper, Package::SpanishCoreLower),
        (Package::FrenchAccentsUpper, Package::FrenchAccentsLower),
        (Package::GermanExtrasUpper, Package::GermanExtrasLower),
        (Package::ItalianCoreUpper, Package::ItalianCoreLower),
        (Package::PortugueseCoreUpper, Package::PortugueseCoreLower),
        (Package::DanishNorwegianUpper, Package::DanishNorwegianLower),
        (Package::SwedishUpper, Package::SwedishLower),
        (Package::IcelandicUpper, Package::IcelandicLower),
        (Package::LithuanianUpper, Package::LithuanianLower),
        (Package::LatvianUpper, Package::LatvianLower),
        (Package::CzechUpper, Package::CzechLower),
        (Package::SlovakUpper, Package::SlovakLower),
        (Package::SloveneBCSUpper, Package::SloveneBCSLower),
        (Package::HungarianUpper, Package::HungarianLower),
        (Package::PolishUpper, Package::PolishLower),
        (Package::RomanianUpper, Package::RomanianLower),
        (Package::WelshUpper, Package::WelshLower),
        (Package::GaelicUpper, Package::GaelicLower),
        (Package::MalteseUpper, Package::MalteseLower),
        (Package::TurkishAzeriUpper, Package::TurkishAzeriLower),
        (Package::LatinPinyinUpper, Package::LatinPinyinLower),
    ]
}

/// Greek, Cyrillic and Armenian packages whose capitals and small letters correspond position by position.
pub open spec fn script_case_packages() -> Seq<(Package, Package)> {
    seq![
        (Package::GreekCaps, Package::GreekLowerBase),
        (Package::CyrillicRuCaps, Package::CyrillicRuLower),
        (Package::CyrillicUkCaps, Package::CyrillicUkLower),
        (Package::CyrillicBeCaps, Package::CyrillicBeLower),
        (Package::CyrillicSrMeCaps, Package::CyrillicSrMeLower),
        (Package::CyrillicMkCaps, Package::CyrillicMkLower),
        (Package::ArmenianCaps, Package::ArmenianLower),
    ]
}

/// The rows of [`script_case_packages`].
pub fn script_case_packages_rows() -> (r: &'static [(Package, Package)])
    ensures
        r@ == script_case_packages(),
{
    &[
        (Package::GreekCaps, Package::GreekLowerBase),
        (Package::CyrillicRuCaps, Package::CyrillicRuLower),
        (Package::CyrillicUkCaps, Package::CyrillicUkLower),
        (Package::CyrillicBeCaps, Package::CyrillicBeLower),
        (Package::CyrillicSrMeCaps, Package::CyrillicSrMeLower),
        (Package::CyrillicMkCaps, Package::CyrillicMkLower),
        (Package::ArmenianCaps, Package::ArmenianLower),
    ]
}

/// The Cyrillic letter drawn like an ASCII Latin letter, for the letters that have one.
pub open spec fn confusable_core(c: char) -> Option<&'static str> {
    match c {
        'A' => Some("А"),
        'a' => Some("а"),
        'B' => Some("В"),
        'b' => Some("в"),
        'C' => Some("С"),
        'c' => Some("с"),
        'E' => Some("Е"),
        'e' => Some("е"),
        'H' => Some("Н"),
        'h' => Some("н"),
        'K' => Some("К"),
        'k' => Some("к"),
        'M' => Some("М"),
        'm' => Some("м"),
        'O' => Some("О"),
        'o' => Some("о"),
        'P' => Some("Р"),
        'p' => Some("р"),
        'T' => Some("Т"),
        't' => Some("т"),
        'X' => Some("Х"),
        'x' => Some("х"),
        'Y' => Some("У"),
        'y' => Some("у"),
        _ => None,
    }
}

/// [`confusable_core`] for one letter.
pub fn confusable_core_of(c: char) -> (r: Option<&'static str>)
    ensures
        r == confusable_core(c),
{
    match c {
        'A' => Some("А"),
        'a' => Some("а"),
        'B' => Some("В"),
        'b' => Some("в"),
        'C' => Some("С"),
        'c' => Some("с"),
        'E' => Some("Е"),
        'e' => Some("е"),
        'H' => Some("Н"),
        'h' => Some("н"),
        'K' => Some("К"),
        'k' => Some("к"),
        'M' => Some("М"),
        'm' => Some("м"),
        'O' => Some("О"),
        'o' => Some("о"),
        'P' => Some("Р"),
        'p' => Some("р"),
        'T' => Some("Т"),
        't' => Some("т"),
        'X' => Some("Х"),
        'x' => Some("х"),
        'Y' => Some("У"),
        'y' => Some("у"),
        _ => None,
    }
}

/// The combining marks that may follow a kept base letter.
pub open spec fn common_marks() -> Seq<char> {
    seq![
        '\u{0300}', '\u{0301}', '\u{0302}', '\u{0303}', '\u{0304}', '\u{0306}', '\u{0307}', '\u{0308}',
        '\u{030A}', '\u{030B}', '\u{030C}', '\u{0311}', '\u{031B}', '\u{0323}', '\u{0326}', '\u{0327}',
        '\u{0328}', '\u{032D}', '\u{0331}', '\u{0332}', '\u{0335}', '\u{0336}', '\u{0337}', '\u{0338}',
        '\u{0483}', '\u{0484}', '\u{0485}', '\u{0486}', '\u{0487}', '\u{0488}', '\u{0489}',
    ]
}

/// The rows of [`common_marks`].
pub fn common_marks_rows() -> (r: &'static [char])
    ensures
        r@ == common_marks(),
{
    &[
        '\u{0300}', '\u{0301}', '\u{0302}', '\u{0303}', '\u{0304}', '\u{0306}', '\u{0307}', '\u{0308}',
        '\u{030A}', '\u{030B}', '\u{030C}', '\u{0311}', '\u{031B}', '\u{0323}', '\u{0326}', '\u{0327}',
        '\u{0328}', '\u{032D}', '\u{0331}', '\u{0332}', '\u{0335}', '\u{0336}', '\u{0337}', '\u{0338}',
        '\u{0483}', '\u{0484}', '\u{0485}', '\u{0486}', '\u{0487}', '\u{0488}', '\u{0489}',
    ]
}

} // verus!
