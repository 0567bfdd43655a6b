//! The glyph catalogue: packages of glyph tokens, the presets that combine
//! them, and the names by which a configuration refers to packages.

use vstd::prelude::*;
use crate::lexorder::{char_seq_lt, lemma_neighbours_sorted, strictly_sorted};

verus! {

broadcast use vstd::string::group_string_axioms;

/// A package of glyph tokens of one script, language or symbol family.
#[derive(Clone, Copy, Debug, PartialEq, Eq, Structural, Hash)]
pub enum Package {
    LatinAsciiUpper,
    LatinAsciiLower,
    SpanishCoreUpper,
    SpanishCoreLower,
    FrenchAccentsUpper,
    FrenchAccentsLower,
    GermanExtrasUpper,
    GermanExtrasLower,
    ItalianCoreUpper,
    ItalianCoreLower,
    PortugueseCoreUpper,
    PortugueseCoreLower,
    DanishNorwegianUpper,
    DanishNorwegianLower,
    SwedishUpper,
    SwedishLower,
    IcelandicUpper,
    IcelandicLower,
    LithuanianUpper,
    LithuanianLower,
    LatvianUpper,
    LatvianLower,
    CzechUpper,
    CzechLower,
    SlovakUpper,
    SlovakLower,
    SloveneBCSUpper,
    SloveneBCSLower,
    HungarianUpper,
    HungarianLower,
    PolishUpper,
    PolishLower,
    RomanianUpper,
    RomanianLower,
    WelshUpper,
    WelshLower,
    GaelicUpper,
    GaelicLower,
    MalteseUpper,
    MalteseLower,
    TurkishAzeriUpper,
    TurkishAzeriLower,
    GreenlandicUpper,
    GreenlandicLower,
    LatinLigaturesUpper,
    LatinLigaturesLower,
    LatinDigraphsCommon,
    LatinDigraphsCatalan,
    LatinDigraphsMaltese,
    LatinDigraphsAll,
    LatinIpaCore,
    LatinIpaModifiers,
    LatinClicks,
    LatinPinyinUpper,
    LatinPinyinLower,
    GreekCaps,
    GreekLowerBase,
    GreekMonotonicMarksUpper,
    GreekMonotonicMarksLower,
    CyrillicRuCaps,
    CyrillicRuLower,
    CyrillicBgCaps,
    CyrillicBgLower,
    CyrillicUkCaps,
    CyrillicUkLower,
    CyrillicBeCaps,
    CyrillicBeLower,
    CyrillicSrMeCaps,
    CyrillicSrMeLower,
    CyrillicMkCaps,
    CyrillicMkLower,
    ArmenianCaps,
    ArmenianLower,
    GeorgianMkhedruli,
    GeorgianMtavruli,
    Hebrew,
    CherokeeUpper,
    CherokeeSmall,
    InuktitutCore,
    CreeCore,
    Hiragana,
    Katakana,
    HangulJamoL,
    HangulJamoV,
    HangulJamoT,
    HangulJamoAll,
    EthiopicCore,
    ArabicCore,
    PersianUrduExtras,
    SyriacCore,
    ThaanaCore,
    DevanagariCore,
    BengaliCore,
    GurmukhiCore,
    GujaratiCore,
    OdiaCore,
    TamilCore,
    TeluguCore,
    KannadaCore,
    MalayalamCore,
    SinhalaCore,
    ThaiCore,
    LaoCore,
    TibetanCore,
    MyanmarCore,
    KhmerCore,
    LatinSalishUpper,
    LatinSalishLower,
    LatinExtendedOgonekUpper,
    LatinExtendedOgonekLower,
    RomanianLegacyCedillaUpper,
    RomanianLegacyCedillaLower,
    LatinAfricanUpper,
    LatinAfricanLower,
    YorubaUpper,
    YorubaLower,
    KikuyuUpper,
    KikuyuLower,
    EsperantoUpper,
    EsperantoLower,
    VietnameseUpper,
    VietnameseLower,
    YorubaTonesUpper,
    YorubaTonesLower,
    DigitsAscii,
    DigitsArabicIndic,
    DigitsExtendedArabicIndic,
    DigitsDevanagari,
    DigitsBengali,
    DigitsGurmukhi,
    DigitsGujarati,
    DigitsOdia,
    DigitsTamil,
    DigitsTelugu,
    DigitsKannada,
    DigitsMalayalam,
    DigitsSinhala,
    DigitsThai,
    DigitsLao,
    DigitsTibetan,
    DigitsMyanmar,
    DigitsKhmer,
    DigitsSuperscriptCore,
    DigitsSubscriptCore,
    MathBasicArithmetic,
    MathFullwidthBasicEastAsian,
    MathArabicNumericSymbols,
    MathTypographicVariants,
    MathAlgebraCore,
    MathSetRelations,
    MathCalculusCore,
    MathLogicCore,
    MathArrowsBasic,
    MathArrowsExtended,
    MathDelimitersExtended,
    MathOperatorsExtended,
    MathDoubleStruckSets,
    PunctuationWordBasicLatin,
    PunctuationUnderscoreBasic,
    PunctuationUnderscoreExtended,
    PunctuationSentenceBasicLatin,
    PunctuationSpanishExtras,
    PunctuationGreekAnoTeleia,
    PunctuationHebrewCore,
    PunctuationArabicCore,
    PunctuationDevanagariCore,
    PunctuationJapaneseCore,
    PunctuationThaiCore,
    PunctuationLaoCore,
    PunctuationTibetanCore,
    PunctuationMyanmarCore,
    PunctuationKhmerCore,
    PunctuationDashesBasic,
    PunctuationDashesExtended,
    PunctuationDashesAll,
    SymbolsAstroBasic,
    LatinSmallCapsExtended,
    BraillePatterns,
    SymbolsMusicBasic,
    PunctuationCurrencyExtended,
    PunctuationLetterlikeSymbols,
    PunctuationPrimesBasic,
    HawaiianCoreUpper,
    HawaiianCoreLower,
    HawaiianOkina,
    PunctuationSectionsBasic,
}

/// The tokens of each package, in catalogue order.
pub open spec fn package_tokens(p: Package) -> Seq<&'static str> {
    match p {
        Package::LatinAsciiUpper => seq![
            "A", "B", "C", "D", "E", "F", "G", "H", "I", "J", "K", "L",
            "M", "N", "O", "P", "Q", "R", "S", "T", "U", "V", "W", "X",
            "Y", "Z",
        ],
        Package::LatinAsciiLower => seq![
            "a", "b", "c", "d", "e", "f", "g", "h", "i", "j", "k", "l",
            "m", "n", "o", "p", "q", "r", "s", "t", "u", "v", "w", "x",
            "y", "z",
        ],
        Package::SpanishCoreUpper => seq![
            "Ñ",
        ],
        Package::SpanishCoreLower => seq![
            "ñ",
        ],
        Package::FrenchAccentsUpper => seq![
            "À", "Â", "Ä", "Ç", "É", "È", "Ê", "Ë", "Î", "Ï", "Ô", "Ö",
            "Ù", "Û", "Ü", "Ÿ",
        ],
        Package::FrenchAccentsLower => seq![
            "à", "â", "ä", "ç", "é", "è", "ê", "ë", "î", "ï", "ô", "ö",
            "ù", "û", "ü", "ÿ",
        ],
        Package::GermanExtrasUpper => seq![
            "Ä", "Ö", "Ü", "ẞ",
        ],
        Package::GermanExtrasLower => seq![
            "ä", "ö", "ü", "ß",
        ],
        Package::ItalianCoreUpper => seq![
            "À", "È", "É", "Ì", "Ò", "Ù",
        ],
        Package::ItalianCoreLower => seq![
            "à", "è", "é", "ì", "ò", "ù",
        ],
        Package::PortugueseCoreUpper => seq![
            "Ã", "Õ", "Â", "Ê", "Ô", "Á", "É", "Í", "Ó", "Ú",
        ],
        Package::PortugueseCoreLower => seq![
            "ã", "õ", "â", "ê", "ô", "á", "é", "í", "ó", "ú",
        ],
        Package::DanishNorwegianUpper => seq![
            "Å", "Æ", "Ø",
        ],
        Package::DanishNorwegianLower => seq![
            "å", "æ", "ø",
        ],
        Package::SwedishUpper => seq![
            "Å", "Ä", "Ö",
        ],
        Package::SwedishLower => seq![
            "å", "ä", "ö",
        ],
        Package::IcelandicUpper => seq![
            "Á", "Ð", "É", "Í", "Ó", "Ú", "Ý", "Þ", "Æ", "Ö",
        ],
        Package::IcelandicLower => seq![
            "á", "ð", "é", "í", "ó", "ú", "ý", "þ", "æ", "ö",
        ],
        Package::LithuanianUpper => seq![
            "Ą", "Č", "Ę", "Ė", "Į", "Š", "Ų", "Ū", "Ž",
        ],
        Package::LithuanianLower => seq![
            "ą", "č", "ę", "ė", "į", "š", "ų", "ū", "ž",
        ],
        Package::LatvianUpper => seq![
            "Ā", "Č", "Ē", "Ģ", "Ī", "Ķ", "Ļ", "Ņ", "Š", "Ū", "Ž",
        ],
        Package::LatvianLower => seq![
            "ā", "č", "ē", "ģ", "ī", "ķ", "ļ", "ņ", "š", "ū", "ž",
        ],
        Package::CzechUpper => seq![
            "Á", "Č", "Ď", "É", "Ě", "Í", "Ň", "Ó", "Ř", "Š", "Ť", "Ú",
            "Ů", "Ý", "Ž",
        ],
        Package::CzechLower => seq![
            "á", "č", "ď", "é", "ě", "í", "ň", "ó", "ř", "š", "ť", "ú",
            "ů", "ý", "ž",
        ],
        Package::SlovakUpper => seq![
            "Á", "Ä", "Č", "Ď", "É", "Í", "Ĺ", "Ľ", "Ň", "Ó", "Ô", "Ŕ",
            "Š", "Ť", "Ú", "Ý", "Ž",
        ],
        Package::SlovakLower => seq![
            "á", "ä", "č", "ď", "é", "í", "ĺ", "ľ", "ň", "ó", "ô", "ŕ",
            "š", "ť", "ú", "ý", "ž",
        ],
        Package::SloveneBCSUpper => seq![
            "Č", "Ć", "Đ", "Š", "Ž",
        ],
        Package::SloveneBCSLower => seq![
            "č", "ć", "đ", "š", "ž",
        ],
        Package::HungarianUpper => seq![
            "Á", "É", "Í", "Ó", "Ö", "Ő", "Ú", "Ü", "Ű",
        ],
        Package::HungarianLower => seq![
            "á", "é", "í", "ó", "ö", "ő", "ú", "ü", "ű",
        ],
        Package::PolishUpper => seq![
            "Ą", "Ć", "Ę", "Ł", "Ń", "Ó", "Ś", "Ź", "Ż",
        ],
        Package::PolishLower => seq![
            "ą", "ć", "ę", "ł", "ń", "ó", "ś", "ź", "ż",
        ],
        Package::RomanianUpper => seq![
            "Ă", "Â", "Î", "Ș", "Ț",
        ],
        Package::RomanianLower => seq![
            "ă", "â", "î", "ș", "ț",
        ],
        Package::WelshUpper => seq![
            "Â", "Ê", "Î", "Ô", "Û", "Ŵ", "Ŷ",
        ],
        Package::WelshLower => seq![
            "â", "ê", "î", "ô", "û", "ŵ", "ŷ",
        ],
        Package::GaelicUpper => seq![
            "À", "È", "Ì", "Ò", "Ù",
        ],
        Package::GaelicLower => seq![
            "à", "è", "ì", "ò", "ù",
        ],
        Package::MalteseUpper => seq![
            "Ċ", "Ġ", "Ħ", "Ż",
        ],
        Package::MalteseLower => seq![
            "ċ", "ġ", "ħ", "ż",
        ],
        Package::TurkishAzeriUpper => seq![
            "Ç", "Ğ", "İ", "Ö", "Ş", "Ü",
        ],
        Package::TurkishAzeriLower => seq![
            "ç", "ğ", "ı", "ö", "ş", "ü",
        ],
        Package::GreenlandicUpper => seq![
            "Ŋ",
        ],
        Package::GreenlandicLower => seq![
            "ŋ", "ĸ",
        ],
        Package::LatinLigaturesUpper => seq![
            "Æ", "Œ", "Ĳ", "ẞ",
        ],
        Package::LatinLigaturesLower => seq![
            "æ", "œ", "ĳ", "ß", "ﬀ", "ﬁ", "ﬂ", "ﬃ", "ﬄ",
        ],
        Package::LatinDigraphsCommon => seq![
            "tsch", "sch", "stj", "skj", "tch", "sci", "gli", "eau", "que", "qui", "gue", "gui",
            "gh", "ph", "qu", "th", "sh", "zh", "ch", "ll", "rr", "gn", "nh", "lh",
            "dd", "ff", "ng", "rh", "kj", "tj", "sj", "hv", "hj", "gj", "ij", "tx",
            "ts", "tz", "TSCH", "SCH", "STJ", "SKJ", "TCH", "SCI", "GLI", "EAU", "QUE", "QUI",
            "GUE", "GUI", "GH", "PH", "QU", "TH", "SH", "ZH", "CH", "LL", "RR", "GN",
            "NH", "LH", "DD", "FF", "NG", "RH", "KJ", "TJ", "SJ", "HV", "HJ", "GJ",
            "IJ", "TX", "TS", "TZ",
        ],
        Package::LatinDigraphsCatalan => seq![
            "l·l", "L·L",
        ],
        Package::LatinDigraphsMaltese => seq![
            "għ", "GĦ",
        ],
        Package::LatinDigraphsAll => seq![
            "tsch", "sch", "stj", "skj", "tch", "sci", "gli", "eau", "que", "qui", "gue", "gui",
            "gh", "ph", "qu", "th", "sh", "zh", "ch", "ll", "rr", "gn", "nh", "lh",
            "dd", "ff", "ng", "rh", "kj", "tj", "sj", "hv", "hj", "gj", "ij", "tx",
            "ts", "tz", "TSCH", "SCH", "STJ", "SKJ", "TCH", "SCI", "GLI", "EAU", "QUE", "QUI",
            "GUE", "GUI", "GH", "PH", "QU", "TH", "SH", "ZH", "CH", "LL", "RR", "GN",
            "NH", "LH", "DD", "FF", "NG", "RH", "KJ", "TJ", "SJ", "HV", "HJ", "GJ",
            "IJ", "TX", "TS", "TZ", "l·l", "L·L", "għ", "GĦ",
        ],
        Package::LatinIpaCore => seq![
            "ɐ", "ɑ", "ɒ", "æ", "ə", "ɚ", "ɜ", "ɞ", "ɛ", "ɘ", "ɵ", "ɤ",
            "ɔ", "ʌ", "ɯ", "ʊ", "ɨ", "ʉ", "ɪ", "ʏ", "ɶ", "β", "θ", "ð",
            "ʃ", "ʒ", "ʂ", "ʐ", "ç", "ʝ", "ɣ", "χ", "ʁ", "ħ", "ʕ", "ɦ",
            "ɸ", "ʍ", "ɥ", "ʋ", "ɹ", "ɾ", "ɽ", "ɻ", "ʀ", "ɫ", "ʎ", "ɭ",
            "ɮ", "ɬ", "ɱ", "ɲ", "ɳ", "ŋ", "ɴ", "ʈ", "ɖ", "ɟ", "ɢ", "ʔ",
            "ɡ", "ʡ", "ʢ",
        ],
        Package::LatinIpaModifiers => seq![
            "ˈ", "ˌ", "ː", "ˑ", "˞", "ʰ", "ʷ", "ʲ", "ʼ", "\u{0361}", "\u{035C}", "\u{0303}",
            "\u{0308}", "\u{0329}", "\u{032F}", "\u{031F}", "\u{0320}", "\u{032A}", "\u{033A}", "\u{033B}",
        ],
        Package::LatinClicks => seq![
            "ǀ", "ǁ", "ǂ", "ǃ",
        ],
        Package::LatinPinyinUpper => seq![
            "Ā", "Á", "Ǎ", "À", "Ē", "É", "Ě", "È", "Ī", "Í", "Ǐ", "Ì",
            "Ō", "Ó", "Ǒ", "Ò", "Ū", "Ú", "Ǔ", "Ù", "Ǖ", "Ǘ", "Ǚ", "Ǜ",
            "Ü", "M̄", "Ḿ", "M̌", "M̀", "N̄", "Ń", "Ň", "Ǹ",
        ],
        Package::LatinPinyinLower => seq![
            "ā", "á", "ǎ", "à", "ē", "é", "ě", "è", "ī", "í", "ǐ", "ì",
            "ō", "ó", "ǒ", "ò", "ū", "ú", "ǔ", "ù", "ǖ", "ǘ", "ǚ", "ǜ",
            "ü", "m̄", "ḿ", "m̌", "m̀", "n̄", "ń", "ň", "ǹ",
        ],
        Package::GreekCaps => seq![
            "Α", "Β", "Γ", "Δ", "Ε", "Ζ", "Η", "Θ", "Ι", "Κ", "Λ", "Μ",
            "Ν", "Ξ", "Ο", "Π", "Ρ", "Σ", "Τ", "Υ", "Φ", "Χ", "Ψ", "Ω",
        ],
        Package::GreekLowerBase => seq![
            "α", "β", "γ", "δ", "ε", "ζ", "η", "θ", "ι", "κ", "λ", "μ",
            "ν", "ξ", "ο", "π", "ρ", "σ", "τ", "υ", "φ", "χ", "ψ", "ω",
            "ς",
        ],
        Package::GreekMonotonicMarksUpper => seq![
            "Ά", "Έ", "Ή", "Ί", "Ό", "Ύ", "Ώ", "Ϊ", "Ϋ",
        ],
        Package::GreekMonotonicMarksLower => seq![
            "ά", "έ", "ή", "ί", "ό", "ύ", "ώ", "ϊ", "ΐ", "ϋ", "ΰ",
        ],
        Package::CyrillicRuCaps => seq![
            "А", "Б", "В", "Г", "Д", "Е", "Ё", "Ж", "З", "И", "Й", "К",
            "Л", "М", "Н", "О", "П", "Р", "С", "Т", "У", "Ф", "Х", "Ц",
            "Ч", "Ш", "Щ", "Ъ", "Ы", "Ь", "Э", "Ю", "Я",
        ],
        Package::CyrillicRuLower => seq![
            "а", "б", "в", "г", "д", "е", "ё", "ж", "з", "и", "й", "к",
            "л", "м", "н", "о", "п", "р", "с", "т", "у", "ф", "х", "ц",
            "ч", "ш", "щ", "ъ", "ы", "ь", "э", "ю", "я",
        ],
        Package::CyrillicBgCaps => seq![
            "А", "Б", "В", "Г", "Д", "Е", "Ж", "З", "И", "Й", "К", "Л",
            "М", "Н", "О", "П", "Р", "С", "Т", "У", "Ф", "Х", "Ц", "Ч",
            "Ш", "Щ", "Ъ", "Ь", "Ю", "Я",
        ],
        Package::CyrillicBgLower => seq![
            "а", "б", "в", "г", "д", "е", "ж", "з", "и", "й", "к", "л",
            "м", "н", "о", "п", "р", "с", "т", "у", "ф", "х", "ц", "ч",
            "ш", "щ", "ъ", "ь", "ю", "я",
        ],
        Package::CyrillicUkCaps => seq![
            "Ґ", "Є", "І", "Ї",
        ],
        Package::CyrillicUkLower => seq![
            "ґ", "є", "і", "ї",
        ],
        Package::CyrillicBeCaps => seq![
            "Ў",
        ],
        Package::CyrillicBeLower => seq![
            "ў",
        ],
        Package::CyrillicSrMeCaps => seq![
            "Ђ", "Ћ", "Ј", "Љ", "Њ", "Џ",
        ],
        Package::CyrillicSrMeLower => seq![
            "ђ", "ћ", "ј", "љ", "њ", "џ",
        ],
        Package::CyrillicMkCaps => seq![
            "Ѓ", "Ќ", "Ѕ",
        ],
        Package::CyrillicMkLower => seq![
            "ѓ", "ќ", "ѕ",
        ],
        Package::ArmenianCaps => seq![
            "Ա", "Բ", "Գ", "Դ", "Ե", "Զ", "Է", "Ը", "Թ", "Ժ", "Ի", "Լ",
            "Խ", "Ծ", "Կ", "Հ", "Ձ", "Ղ", "Ճ", "Մ", "Յ", "Ն", "Շ", "Ո",
            "Չ", "Պ", "Ջ", "Ռ", "Ս", "Վ", "Տ", "Ր", "Ց", "Ւ", "Փ", "Ք",
            "Օ", "Ֆ",
        ],
        Package::ArmenianLower => seq![
            "ա", "բ", "գ", "դ", "ե", "զ", "է", "ը", "թ", "ժ", "ի", "լ",
            "խ", "ծ", "կ", "հ", "ձ", "ղ", "ճ", "մ", "յ", "ն", "շ", "ո",
            "չ", "պ", "ջ", "ռ", "ս", "վ", "տ", "ր", "ց", "ւ", "փ", "ք",
            "օ", "ֆ",
        ],
        Package::GeorgianMkhedruli => seq![
            "ა", "ბ", "გ", "დ", "ე", "ვ", "ზ", "თ", "ი", "კ", "ლ", "მ",
            "ნ", "ო", "პ", "ჟ", "რ", "ს", "ტ", "უ", "ფ", "ქ", "ღ", "ყ",
            "შ", "ჩ", "ც", "ძ", "წ", "ჭ", "ხ", "ჯ", "ჰ",
        ],
        Package::GeorgianMtavruli => seq![
            "Ა", "Ბ", "Გ", "Დ", "Ე", "Ვ", "Ზ", "Თ", "Ი", "Კ", "Ლ", "Მ",
            "Ნ", "Ო", "Პ", "Ჟ", "Რ", "Ს", "Ტ", "Უ", "Ფ", "Ქ", "Ღ", "Ყ",
            "Შ", "Ჩ", "Ც", "Ძ", "Წ", "Ჭ", "Ხ", "Ჯ", "Ჰ",
        ],
        Package::Hebrew => seq![
            "א", "ב", "ג", "ד", "ה", "ו", "ז", "ח", "ט", "י", "כ", "ך",
            "ל", "מ", "ם", "נ", "ן", "ס", "ע", "פ", "ף", "צ", "ץ", "ק",
            "ר", "ש", "ת",
        ],
        Package::CherokeeUpper => seq![
            "Ꭰ", "Ꭱ", "Ꭲ", "Ꭳ", "Ꭴ", "Ꭵ", "Ꭶ", "Ꭷ", "Ꭸ", "Ꭹ", "Ꭺ", "Ꭻ",
            "Ꭼ", "Ꭽ", "Ꭾ", "Ꭿ", "Ꮀ", "Ꮁ", "Ꮂ", "Ꮃ", "Ꮄ", "Ꮅ", "Ꮆ", "Ꮇ",
            "Ꮈ", "Ꮉ", "Ꮊ", "Ꮋ", "Ꮌ", "Ꮍ", "Ꮎ", "Ꮏ", "Ꮐ", "Ꮑ", "Ꮒ", "Ꮓ",
            "Ꮔ", "Ꮕ", "Ꮖ", "Ꮗ", "Ꮘ", "Ꮙ", "Ꮚ", "Ꮛ", "Ꮜ", "Ꮝ", "Ꮞ", "Ꮟ",
            "Ꮠ", "Ꮡ", "Ꮢ", "Ꮣ", "Ꮤ", "Ꮥ", "Ꮦ", "Ꮧ", "Ꮨ", "Ꮩ", "Ꮪ", "Ꮫ",
            "Ꮬ", "Ꮭ", "Ꮮ", "Ꮯ", "Ꮰ", "Ꮱ", "Ꮲ", "Ꮳ", "Ꮴ", "Ꮵ", "Ꮶ", "Ꮷ",
            "Ꮸ", "Ꮹ", "Ꮺ", "Ꮻ", "Ꮼ", "Ꮽ", "Ꮾ", "Ꮿ", "Ᏸ", "Ᏹ", "Ᏺ", "Ᏻ",
            "Ᏼ",
        ],
        Package::CherokeeSmall => seq![
            "ꭰ", "ꭱ", "ꭲ", "ꭳ", "ꭴ", "ꭵ", "ꭶ", "ꭷ", "ꭸ", "ꭹ", "ꭺ", "ꭻ",
            "ꭼ", "ꭽ", "ꭾ", "ꭿ", "ꮀ", "ꮁ", "ꮂ", "ꮃ", "ꮄ", "ꮅ", "ꮆ", "ꮇ",
            "ꮈ", "ꮉ", "ꮊ", "ꮋ", "ꮌ", "ꮍ", "ꮎ", "ꮏ", "ꮐ", "ꮑ", "ꮒ", "ꮓ",
            "ꮔ", "ꮕ", "ꮖ", "ꮗ", "ꮘ", "ꮙ", "ꮚ", "ꮛ", "ꮜ", "ꮝ", "ꮞ", "ꮟ",
            "ꮠ", "ꮡ", "ꮢ", "ꮣ", "ꮤ", "ꮥ", "ꮦ", "ꮧ", "ꮨ", "ꮩ", "ꮪ", "ꮫ",
            "ꮬ", "ꮭ", "ꮮ", "ꮯ", "ꮰ", "ꮱ", "ꮲ", "ꮳ", "ꮴ", "ꮵ", "ꮶ", "ꮷ",
            "ꮸ", "ꮹ", "ꮺ", "ꮻ", "ꮼ", "ꮽ", "ꮾ", "ꮿ", "ꯀ", "ꯁ", "ꯂ", "ꯃ",
            "ꯄ",
        ],
        Package::InuktitutCore => seq![
            "ᐁ", "ᐃ", "ᐅ", "ᐊ", "ᐯ", "ᐱ", "ᐳ", "ᐸ", "ᑌ", "ᑎ", "ᑐ", "ᑕ",
            "ᑭ", "ᑯ", "ᑲ", "ᒋ", "ᒍ", "ᒐ", "ᒥ", "ᒧ", "ᒪ", "ᓂ", "ᓄ", "ᓇ",
            "ᓯ", "ᓱ", "ᓴ", "ᔑ", "ᔓ", "ᔕ", "ᕕ", "ᕗ", "ᕙ", "ᕿ", "ᖁ", "ᖃ",
            "ᖏ", "ᖑ", "ᖓ", "ᖠ", "ᖢ", "ᖤ",
        ],
        Package::CreeCore => seq![
            "ᐁ", "ᐃ", "ᐄ", "ᐅ", "ᐆ", "ᐊ", "ᐋ", "ᐯ", "ᐱ", "ᐳ", "ᐸ", "ᑌ",
            "ᑎ", "ᑐ", "ᑕ", "ᑭ", "ᑯ", "ᑲ", "ᒋ", "ᒍ", "ᒐ", "ᒥ", "ᒧ", "ᒪ",
            "ᓂ", "ᓄ", "ᓇ", "ᓯ", "ᓰ", "ᓱ", "ᓴ", "ᔑ", "ᔓ", "ᔕ", "ᕁ", "ᕃ",
        ],
        Package::Hiragana => seq![
            "あ", "い", "う", "え", "お", "か", "き", "く", "け", "こ", "が", "ぎ",
            "ぐ", "げ", "ご", "さ", "し", "す", "せ", "そ", "ざ", "じ", "ず", "ぜ",
            "ぞ", "た", "ち", "つ", "て", "と", "だ", "ぢ", "づ", "で", "ど", "な",
            "に", "ぬ", "ね", "の", "は", "ひ", "ふ", "へ", "ほ", "ば", "び", "ぶ",
            "べ", "ぼ", "ぱ", "ぴ", "ぷ", "ぺ", "ぽ", "ま", "み", "む", "め", "も",
            "や", "ゆ", "よ", "ら", "り", "る", "れ", "ろ", "わ", "ゐ", "ゑ", "を",
            "ん", "ぁ", "ぃ", "ぅ", "ぇ", "ぉ", "ゃ", "ゅ", "ょ", "っ", "ゎ", "ゔ",
            "ゕ", "ゖ",
        ],
        Package::Katakana => seq![
            "ア", "イ", "ウ", "エ", "オ", "カ", "キ", "ク", "ケ", "コ", "ガ", "ギ",
            "グ", "ゲ", "ゴ", "サ", "シ", "ス", "セ", "ソ", "ザ", "ジ", "ズ", "ゼ",
            "ゾ", "タ", "チ", "ツ", "テ", "ト", "ダ", "ヂ", "ヅ", "デ", "ド", "ナ",
            "ニ", "ヌ", "ネ", "ノ", "ハ", "ヒ", "フ", "ヘ", "ホ", "バ", "ビ", "ブ",
            "ベ", "ボ", "パ", "ピ", "プ", "ペ", "ポ", "マ", "ミ", "ム", "メ", "モ",
            "ヤ", "ユ", "ヨ", "ラ", "リ", "ル", "レ", "ロ", "ワ", "ヰ", "ヱ", "ヲ",
            "ン", "ァ", "ィ", "ゥ", "ェ", "ォ", "ャ", "ュ", "ョ", "ッ", "ヮ", "ヵ",
            "ヶ", "ヴ", "ヷ", "ヸ", "ヹ", "ヺ", "ー",
        ],
        Package::HangulJamoL => seq![
            "ᄀ", "ᄁ", "ᄂ", "ᄃ", "ᄄ", "ᄅ", "ᄆ", "ᄇ", "ᄈ", "ᄉ", "ᄊ", "ᄋ",
            "ᄌ", "ᄍ", "ᄎ", "ᄏ", "ᄐ", "ᄑ", "ᄒ",
        ],
        Package::HangulJamoV => seq![
            "ᅡ", "ᅢ", "ᅣ", "ᅤ", "ᅥ", "ᅦ", "ᅧ", "ᅨ", "ᅩ", "ᅪ", "ᅫ", "ᅬ",
            "ᅭ", "ᅮ", "ᅯ", "ᅰ", "ᅱ", "ᅲ", "ᅳ", "ᅴ", "ᅵ",
        ],
        Package::HangulJamoT => seq![
            "ᆨ", "ᆩ", "ᆪ", "ᆫ", "ᆬ", "ᆭ", "ᆮ", "ᆯ", "ᆰ", "ᆱ", "ᆲ", "ᆳ",
            "ᆴ", "ᆵ", "ᆶ", "ᆷ", "ᆸ", "ᆹ", "ᆺ", "ᆻ", "ᆼ", "ᆽ", "ᆾ", "ᆿ",
            "ᇀ", "ᇁ", "ᇂ",
        ],
        Package::HangulJamoAll => seq![
            "ᄀ", "ᄁ", "ᄂ", "ᄃ", "ᄄ", "ᄅ", "ᄆ", "ᄇ", "ᄈ", "ᄉ", "ᄊ", "ᄋ",
            "ᄌ", "ᄍ", "ᄎ", "ᄏ", "ᄐ", "ᄑ", "ᄒ", "ᅡ", "ᅢ", "ᅣ", "ᅤ", "ᅥ",
            "ᅦ", "ᅧ", "ᅨ", "ᅩ", "ᅪ", "ᅫ", "ᅬ", "ᅭ", "ᅮ", "ᅯ", "ᅰ", "ᅱ",
            "ᅲ", "ᅳ", "ᅴ", "ᅵ", "ᆨ", "ᆩ", "ᆪ", "ᆫ", "ᆬ", "ᆭ", "ᆮ", "ᆯ",
            "ᆰ", "ᆱ", "ᆲ", "ᆳ", "ᆴ", "ᆵ", "ᆶ", "ᆷ", "ᆸ", "ᆹ", "ᆺ", "ᆻ",
            "ᆼ", "ᆽ", "ᆾ", "ᆿ", "ᇀ", "ᇁ", "ᇂ",
        ],
        Package::EthiopicCore => seq![
            "ሀ", "ለ", "ሐ", "መ", "ሠ", "ረ", "ሰ", "ሸ", "ቀ", "ቈ", "ቐ", "ቘ",
            "በ", "ቨ", "ተ", "ቸ", "ኀ", "ኈ", "ነ", "ኘ", "አ", "ከ", "ኸ", "ወ",
            "ዐ", "ዘ", "ዠ", "የ", "ደ", "ጀ", "ገ", "ጘ", "ጠ", "ጨ", "ጰ", "ጸ",
            "ፀ", "ፈ", "ፐ",
        ],
        Package::ArabicCore => seq![
            "ء", "آ", "أ", "ؤ", "إ", "ئ", "ا", "ب", "ت", "ث", "ج", "ح",
            "خ", "د", "ذ", "ر", "ز", "س", "ش", "ص", "ض", "ط", "ظ", "ع",
            "غ", "ف", "ق", "ك", "ل", "م", "ن", "ه", "ة", "و", "ى", "ي",
            "ػ", "ؼ", "ؽ", "ؾ", "ؿ", "ـ",
        ],
        Package::PersianUrduExtras => seq![
            "پ", "چ", "ژ", "گ", "ک", "ی", "ٹ", "ڈ", "ڑ", "ں", "ھ", "ہ",
            "ۂ", "ۃ", "ے", "ۓ", "ڤ", "ڠ",
        ],
        Package::SyriacCore => seq![
            "ܐ", "ܒ", "ܓ", "ܕ", "ܗ", "ܘ", "ܙ", "ܚ", "ܛ", "ܝ", "ܟ", "ܠ",
            "ܡ", "ܢ", "ܣ", "ܥ", "ܦ", "ܨ", "ܩ", "ܪ", "ܫ", "ܬ", "ܑ", "ܔ",
            "ܜ", "ܞ", "ܤ", "ܧ",
        ],
        Package::ThaanaCore => seq![
            "ހ", "ށ", "ނ", "ރ", "ބ", "ޅ", "ކ", "އ", "ވ", "މ", "ފ", "ދ",
            "ތ", "ލ", "ގ", "ޏ", "ސ", "ޑ", "ޒ", "ޓ", "ޔ", "ޕ", "ޖ", "ޗ",
            "ޘ", "ޙ", "ޚ", "ޛ", "ޜ", "ޝ", "ޞ", "ޟ", "ޠ", "ޡ", "ޢ", "ޣ",
            "ޤ", "ޥ", "ަ", "ާ", "ި", "ީ", "ު", "ޫ", "ެ", "ޭ", "ޮ", "ޯ",
            "ް", "ޱ",
        ],
        Package::DevanagariCore => seq![
            "अ", "आ", "इ", "ई", "उ", "ऊ", "ऋ", "ॠ", "ऌ", "ॡ", "ए", "ऐ",
            "ओ", "औ", "अं", "अः", "ँ", "ं", "ः", "्", "क", "ख", "ग", "घ",
            "ङ", "च", "छ", "ज", "झ", "ञ", "ट", "ठ", "ड", "ढ", "ण", "त",
            "थ", "द", "ध", "न", "प", "फ", "ब", "भ", "म", "य", "र", "ल",
            "व", "श", "ष", "स", "ह", "ळ", "क्ष", "ज्ञ",
        ],
        Package::BengaliCore => seq![
            "অ", "আ", "ই", "ঈ", "উ", "ঊ", "ঋ", "ৠ", "ঌ", "ৡ", "এ", "ঐ",
            "ও", "ঔ", "ঁ", "ং", "ঃ", "্", "ক", "খ", "গ", "ঘ", "ঙ", "চ",
            "ছ", "জ", "ঝ", "ঞ", "ট", "ঠ", "ড", "ঢ", "ণ", "ত", "থ", "দ",
            "ধ", "ন", "প", "ফ", "ব", "ভ", "ম", "য", "র", "ল", "শ", "ষ",
            "স", "হ", "ড\u{09BC}", "ঢ\u{09BC}", "য\u{09BC}", "ৎ",
        ],
        Package::GurmukhiCore => seq![
            "ਅ", "ਆ", "ਇ", "ਈ", "ਉ", "ਊ", "ਏ", "ਐ", "ਓ", "ਔ", "ਅੰ", "ਅਃ",
            "ਂ", "ੰ", "ਃ", "੍", "ਕ", "ਖ", "ਗ", "ਘ", "ਙ", "ਚ", "ਛ", "ਜ",
            "ਝ", "ਞ", "ਟ", "ਠ", "ਡ", "ਢ", "ਣ", "ਤ", "ਥ", "ਦ", "ਧ", "ਨ",
            "ਪ", "ਫ", "ਬ", "ਭ", "ਮ", "ਯ", "ਰ", "ਲ", "ਵ", "ਸ", "ਹ", "ਸ\u{0A3C}",
            "ਖ\u{0A3C}", "ਗ\u{0A3C}", "ਜ\u{0A3C}", "ਫ\u{0A3C}", "ਲ\u{0A3C}", "ੜ",
        ],
        Package::GujaratiCore => seq![
            "અ", "આ", "ઇ", "ઈ", "ઉ", "ઊ", "ઋ", "ૠ", "ઌ", "ૡ", "એ", "ઐ",
            "ઓ", "ઔ", "અં", "અઃ", "ઁ", "ં", "ઃ", "્", "ક", "ખ", "ગ", "ઘ",
            "ઙ", "ચ", "છ", "જ", "ઝ", "ઞ", "ટ", "ઠ", "ડ", "ઢ", "ણ", "ત",
            "થ", "દ", "ધ", "ન", "પ", "ફ", "બ", "ભ", "મ", "ય", "ર", "લ",
            "વ", "શ", "ષ", "સ", "હ", "ળ", "ક્ષ", "જ્ઞ",
        ],
        Package::OdiaCore => seq![
            "ଅ", "ଆ", "ଇ", "ୀ", "ଉ", "ୂ", "ଋ", "ୠ", "ଌ", "ୡ", "ଏ", "ଐ",
            "ଓ", "ଔ", "ଁ", "ଂ", "ଃ", "୍", "କ", "ଖ", "ଗ", "ଘ", "ଙ", "ଚ",
            "ଛ", "ଜ", "ଝ", "ଞ", "ଟ", "ଠ", "ଡ", "ଢ", "ଣ", "ତ", "ଥ", "ଦ",
            "ଧ", "ନ", "ପ", "ଫ", "ବ", "ଭ", "ମ", "ଯ", "ର", "ଲ", "ଵ", "ଶ",
            "ଷ", "ସ", "ହ", "ଳ", "କ୍ଷ",
        ],
        Package::TamilCore => seq![
            "அ", "ஆ", "இ", "ஈ", "உ", "ஊ", "எ", "ஏ", "ஐ", "ஒ", "ஓ", "ஔ",
            "ஃ", "க்", "ங்", "ச்", "ஞ்", "ட்", "ண்", "த்", "ந்", "ப்", "ம்", "ய்",
            "ர்", "ல்", "வ்", "ழ்", "ள்", "று", "ன்", "க", "ங", "ச", "ஞ", "ட",
            "ண", "த", "ந", "ப", "ம", "ய", "ர", "ல", "வ", "ழ", "ள", "ற",
            "ன",
        ],
        Package::TeluguCore => seq![
            "అ", "ఆ", "ఇ", "ఈ", "ఉ", "ఊ", "ఋ", "ౠ", "ఌ", "ౡ", "ఎ", "ఏ",
            "ఐ", "ఒ", "ఓ", "ఔ", "ఁ", "ం", "ః", "్", "క", "ఖ", "గ", "ఘ",
            "ఙ", "చ", "ఛ", "జ", "ఝ", "ఞ", "ట", "ఠ", "డ", "ఢ", "ణ", "త",
            "థ", "ద", "ధ", "న", "ప", "ఫ", "బ", "భ", "మ", "య", "ర", "ల",
            "వ", "శ", "ష", "స", "హ", "ళ", "క్ష", "జ్ఞ",
        ],
        Package::KannadaCore => seq![
            "ಅ", "ಆ", "ಇ", "ಈ", "ಉ", "ಊ", "ಋ", "ೠ", "ಌ", "ೡ", "ಎ", "ಏ",
            "ಐ", "ಒ", "ಓ", "ಔ", "ಂ", "ಃ", "್", "ಕ", "ಖ", "ಗ", "ಘ", "ಙ",
            "ಚ", "ಛ", "ಜ", "ಝ", "ಞ", "ಟ", "ಠ", "ಡ", "ಢ", "ಣ", "ತ", "ಥ",
            "ದ", "ಧ", "ನ", "ಪ", "ಫ", "ಬ", "ಭ", "ಮ", "ಯ", "ರ", "ಲ", "ವ",
            "ಶ", "ಷ", "ಸ", "ಹ", "ಳ", "ೞ", "ಕ್ಷ", "ಜ್ಞ",
        ],
        Package::MalayalamCore => seq![
            "അ", "ആ", "ഇ", "ഈ", "ഉ", "ഊ", "ഋ", "ൠ", "ഌ", "ൡ", "എ", "ഏ",
            "ഐ", "ഒ", "ഓ", "ഔ", "ം", "ഃ", "്", "ക", "ഖ", "ഗ", "ഘ", "ങ",
            "ച", "ഛ", "ജ", "ഝ", "ഞ", "ട", "ഠ", "ഡ", "ഢ", "ണ", "ത", "ഥ",
            "ദ", "ധ", "ന", "പ", "ഫ", "ബ", "ഭ", "മ", "യ", "ര", "ല", "വ",
            "ശ", "ഷ", "സ", "ഹ", "ള", "ഴ", "റ", "ക്ഷ", "ജ്ഞ",
        ],
        Package::SinhalaCore => seq![
            "අ", "ආ", "ඉ", "ඊ", "උ", "ඌ", "ඍ", "ඎ", "ඏ", "ඐ", "එ", "ඒ",
            "ඓ", "ඔ", "ඕ", "ඖ", "ං", "ඃ", "්", "ක", "ඛ", "ග", "ඝ", "ඞ",
            "ච", "ඡ", "ජ", "ඣ", "ඤ", "ට", "ඨ", "ඩ", "ඪ", "ණ", "ත", "ථ",
            "ද", "ධ", "න", "ප", "ඵ", "බ", "භ", "ම", "ය", "ර", "ල", "ව",
            "ශ", "ෂ", "ස", "හ", "ළ", "ෆ", "ක්‍ෂ",
        ],
        Package::ThaiCore => seq![
            "ก", "ข", "ฃ", "ค", "ฅ", "ฆ", "ง", "จ", "ฉ", "ช", "ซ", "ฌ",
            "ญ", "ฎ", "ฏ", "ฐ", "ฑ", "ฒ", "ณ", "ด", "ต", "ถ", "ท", "ธ",
            "น", "บ", "ป", "ผ", "ฝ", "พ", "ฟ", "ภ", "ม", "ย", "ร", "ล",
            "ฤ", "ฦ", "ว", "ศ", "ษ", "ส", "ห", "ฬ", "อ", "ฮ", "ะ", "า",
            "ิ", "ี", "ึ", "ื", "ุ", "ู", "โ", "ไ", "ใ", "เ", "แ", "ำ",
            "ั", "่", "้", "๊", "๋", "์", "็", "ๅ", "ๆ",
        ],
        Package::LaoCore => seq![
            "ກ", "ຂ", "ຄ", "ງ", "ຈ", "ຊ", "ຍ", "ດ", "ຕ", "ຖ", "ທ", "ນ",
            "ບ", "ປ", "ຜ", "ຝ", "ພ", "ຟ", "ມ", "ຢ", "ຣ", "ລ", "ວ", "ສ",
            "ຫ", "ອ", "ຮ", "ະ", "າ", "ິ", "ີ", "ຶ", "ື", "ຸ", "ູ", "ໂ",
            "ໄ", "ໃ", "ເ", "ແ", "ັ", "່", "້", "໊", "໋", "໌", "ໆ",
        ],
        Package::TibetanCore => seq![
            "ཀ", "ཁ", "ག", "ང", "ཅ", "ཆ", "ཇ", "ཉ", "ཏ", "ཐ", "ད", "ན",
            "པ", "ཕ", "བ", "མ", "ཙ", "ཚ", "ཛ", "ཝ", "ཞ", "ཟ", "འ", "ཡ",
            "ར", "ལ", "ཤ", "ས", "ཧ", "ཨ", "་", "།", "༎", "གྷ", "ཊ", "ཋ",
            "ཌ", "ཌྷ", "ཎ", "དྷ", "བྷ", "ཛྷ", "ཥ", "ཀྵ", "ཪ",
        ],
        Package::MyanmarCore => seq![
            "က", "ခ", "ဂ", "ဃ", "င", "စ", "ဆ", "ဇ", "ဈ", "ည", "ဋ", "ဌ",
            "ဍ", "ဎ", "ဏ", "တ", "ထ", "ဒ", "ဓ", "န", "ပ", "ဖ", "ဗ", "ဘ",
            "မ", "ယ", "ရ", "လ", "ဝ", "သ", "ဟ", "ဠ", "အ", "ါ", "ား", "ိ",
            "ီ", "ု", "ူ", "ေ", "ဲ", "ံ", "့", "္",
        ],
        Package::KhmerCore => seq![
            "ក", "ខ", "គ", "ឃ", "ង", "ច", "ឆ", "ជ", "ឈ", "ញ", "ដ", "ឋ",
            "ឌ", "ឍ", "ណ", "ត", "ថ", "ទ", "ធ", "ន", "ប", "ផ", "ព", "ភ",
            "ម", "យ", "រ", "ល", "វ", "ឝ", "ឞ", "ស", "ហ", "ឡ", "អ", "ា",
            "ិ", "ី", "ឹ", "ឺ", "ុ", "ូ", "ើ", "ឿ", "ោះ", "ែ", "ៃ", "ោ",
            "ៅ", "ំ", "ះ", "់", "៌", "៍", "៎", "៏", "័", "៉", "៊",
        ],
        Package::LatinSalishUpper => seq![
            "Ḵ",
        ],
        Package::LatinSalishLower => seq![
            "ḵ", "k\u{0331}", "g\u{0331}", "q\u{0331}", "x\u{0331}", "k\u{02BC}", "q\u{02BC}", "x\u{02BC}", "t\u{02BC}", "p\u{02BC}", "s\u{02BC}", "k\u{0331}\u{02BC}",
            "q\u{0331}\u{02BC}", "x\u{0331}\u{02BC}",
        ],
        Package::LatinExtendedOgonekUpper => seq![
            "Ǫ", "Ǭ",
        ],
        Package::LatinExtendedOgonekLower => seq![
            "ǫ", "ǭ",
        ],
        Package::RomanianLegacyCedillaUpper => seq![
            "Ş", "Ţ",
        ],
        Package::RomanianLegacyCedillaLower => seq![
            "ş", "ţ",
        ],
        Package::LatinAfricanUpper => seq![
            "Ɓ", "Ɗ", "Ɠ", "Ƙ", "Ƴ", "Ɛ", "Ɔ", "Ʋ", "Ŋ", "Ɣ", "Ƈ", "Ƥ",
            "Ƭ", "Ɲ", "Ɩ", "Ɨ", "Ƒ",
        ],
        Package::LatinAfricanLower => seq![
            "ɓ", "ɗ", "ɠ", "ƙ", "ƴ", "ɛ", "ɔ", "ʋ", "ŋ", "ɣ", "ƈ", "ƥ",
            "ƭ", "ɲ", "ɩ", "ɨ", "ƒ",
        ],
        Package::YorubaUpper => seq![
            "Ẹ", "Ọ", "Ṣ",
        ],
        Package::YorubaLower => seq![
            "ẹ", "ọ", "ṣ",
        ],
        Package::KikuyuUpper => seq![
            "Ĩ", "Ũ",
        ],
        Package::KikuyuLower => seq![
            "ĩ", "ũ",
        ],
        Package::EsperantoUpper => seq![
            "Ĉ", "Ĝ", "Ĥ", "Ĵ", "Ŝ", "Ŭ",
        ],
        Package::EsperantoLower => seq![
            "ĉ", "ĝ", "ĥ", "ĵ", "ŝ", "ŭ",
        ],
        Package::VietnameseUpper => seq![
            "A", "Á", "À", "Ả", "Ã", "Ạ", "Ă", "Ắ", "Ằ", "Ẳ", "Ẵ", "Ặ",
            "Â", "Ấ", "Ầ", "Ẩ", "Ẫ", "Ậ", "E", "É", "È", "Ẻ", "Ẽ", "Ẹ",
            "Ê", "Ế", "Ề", "Ể", "Ễ", "Ệ", "I", "Í", "Ì", "Ỉ", "Ĩ", "Ị",
            "O", "Ó", "Ò", "Ỏ", "Õ", "Ọ", "Ô", "Ố", "Ồ", "Ổ", "Ỗ", "Ộ",
            "Ơ", "Ớ", "Ờ", "Ở", "Ỡ", "Ợ", "U", "Ú", "Ù", "Ủ", "Ũ", "Ụ",
            "Ư", "Ứ", "Ừ", "Ử", "Ữ", "Ự", "Y", "Ý", "Ỳ", "Ỷ", "Ỹ", "Ỵ",
            "Đ",
        ],
        Package::VietnameseLower => seq![
            "a", "á", "à", "ả", "ã", "ạ", "ă", "ắ", "ằ", "ẳ", "ẵ", "ặ",
            "â", "ấ", "ầ", "ẩ", "ẫ", "ậ", "e", "é", "è", "ẻ", "ẽ", "ẹ",
            "ê", "ế", "ề", "ể", "ễ", "ệ", "i", "í", "ì", "ỉ", "ĩ", "ị",
            "o", "ó", "ò", "ỏ", "õ", "ọ", "ô", "ố", "ồ", "ổ", "ỗ", "ộ",
            "ơ", "ớ", "ờ", "ở", "ỡ", "ợ", "u", "ú", "ù", "ủ", "ũ", "ụ",
            "ư", "ứ", "ừ", "ử", "ữ", "ự", "y", "ý", "ỳ", "ỷ", "ỹ", "ỵ",
            "đ",
        ],
        Package::YorubaTonesUpper => seq![
            "Á", "À", "Ā", "É", "È", "Ē", "Í", "Ì", "Ī", "Ó", "Ò", "Ō",
            "Ú", "Ù", "Ū", "Ẹ́", "Ẹ̀", "Ẹ̄", "Ọ́", "Ọ̀", "Ọ̄", "Ń", "Ǹ", "N̄",
            "Ḿ", "M̀", "M̄",
        ],
        Package::YorubaTonesLower => seq![
            "á", "à", "ā", "é", "è", "ē", "í", "ì", "ī", "ó", "ò", "ō",
            "ú", "ù", "ū", "ẹ́", "ẹ̀", "ẹ̄", "ọ́", "ọ̀", "ọ̄", "ń", "ǹ", "n̄",
            "ḿ", "m̀", "m̄",
        ],
        Package::DigitsAscii => seq![
            "0", "1", "2", "3", "4", "5", "6", "7", "8", "9",
        ],
        Package::DigitsArabicIndic => seq![
            "٠", "١", "٢", "٣", "٤", "٥", "٦", "٧", "٨", "٩",
        ],
        Package::DigitsExtendedArabicIndic => seq![
            "۰", "۱", "۲", "۳", "۴", "۵", "۶", "۷", "۸", "۹",
        ],
        Package::DigitsDevanagari => seq![
            "०", "१", "२", "३", "४", "५", "६", "७", "८", "९",
        ],
        Package::DigitsBengali => seq![
            "০", "১", "২", "৩", "৪", "৫", "৬", "৭", "৮", "৯",
        ],
        Package::DigitsGurmukhi => seq![
            "੦", "੧", "੨", "੩", "੪", "੫", "੬", "੭", "੮", "੯",
        ],
        Package::DigitsGujarati => seq![
            "૦", "૧", "૨", "૩", "૪", "૫", "૬", "૭", "૮", "૯",
        ],
        Package::DigitsOdia => seq![
            "୦", "୧", "୨", "୩", "୪", "୫", "୬", "୭", "୮", "୯",
        ],
        Package::DigitsTamil => seq![
            "௦", "௧", "௨", "௩", "௪", "௫", "௬", "௭", "௮", "௯",
        ],
        Package::DigitsTelugu => seq![
            "౦", "౧", "౨", "౩", "౪", "౫", "౬", "౭", "౮", "౯",
        ],
        Package::DigitsKannada => seq![
            "೦", "೧", "೨", "೩", "೪", "೫", "೬", "೭", "೮", "೯",
        ],
        Package::DigitsMalayalam => seq![
            "൦", "൧", "൨", "൩", "൪", "൫", "൬", "൭", "൮", "൯",
        ],
        Package::DigitsSinhala => seq![
            "෦", "෧", "෨", "෩", "෪", "෫", "෬", "෭", "෮", "෯",
        ],
        Package::DigitsThai => seq![
            "๐", "๑", "๒", "๓", "๔", "๕", "๖", "๗", "๘", "๙",
        ],
        Package::DigitsLao => seq![
            "໐", "໑", "໒", "໓", "໔", "໕", "໖", "໗", "໘", "໙",
        ],
        Package::DigitsTibetan => seq![
            "༠", "༡", "༢", "༣", "༤", "༥", "༦", "༧", "༨", "༩",
        ],
        Package::DigitsMyanmar => seq![
            "၀", "၁", "၂", "၃", "၄", "၅", "၆", "၇", "၈", "၉",
        ],
        Package::DigitsKhmer => seq![
            "០", "១", "២", "៣", "៤", "៥", "៦", "៧", "៨", "៩",
        ],
        Package::DigitsSuperscriptCore => seq![
            "⁰", "¹", "²", "³", "⁴", "⁵", "⁶", "⁷", "⁸", "⁹", "⁺", "⁻",
            "⁼", "⁽", "⁾",
        ],
        Package::DigitsSubscriptCore => seq![
            "₀", "₁", "₂", "₃", "₄", "₅", "₆", "₇", "₈", "₉", "₊", "₋",
            "₌", "₍", "₎",
        ],
        Package::MathBasicArithmetic => seq![
            "+", "-", "*", "×", "÷", "/", "=", "%", "^", "(", ")", "[",
            "]",
        ],
        Package::MathFullwidthBasicEastAsian => seq![
            "＋", "－", "＊", "／", "＝", "％", "＾", "（", "）", "［", "］",
        ],
        Package::MathArabicNumericSymbols => seq![
            "٪", "٫", "٬",
        ],
        Package::MathTypographicVariants => seq![
            "−", "∙", "⋅", "·",
        ],
        Package::MathAlgebraCore => seq![
            "±", "∓", "<", ">", "≤", "≥", "≠", "≈", "∼", "∣", "∥",
        ],
        Package::MathSetRelations => seq![
            "∈", "∉", "∋", "⊂", "⊄", "⊆", "⊇", "⊃", "∪", "∩", "∅", "≡",
            "≅", "≃", "≍", "≔", "≕", "≜", "∝",
        ],
        Package::MathCalculusCore => seq![
            "∑", "∏", "∫", "∬", "∮", "∂", "∇", "∞", "√", "∆",
        ],
        Package::MathLogicCore => seq![
            "¬", "∧", "∨", "⇒", "⇔", "∀", "∃", "∴", "∵", "⊢", "⊨",
        ],
        Package::MathArrowsBasic => seq![
            "→", "←", "↔", "↑", "↓",
        ],
        Package::MathArrowsExtended => seq![
            "⇒", "⇐", "⇔", "↦", "↣", "↩", "↪", "↗", "↘", "↙", "↖",
        ],
        Package::MathDelimitersExtended => seq![
            "⟨", "⟩", "〈", "〉", "⌈", "⌉", "⌊", "⌋", "⎡", "⎤", "⎣", "⎦",
        ],
        Package::MathOperatorsExtended => seq![
            "⊕", "⊖", "⊗", "⊘", "⊙", "⊚", "⊛", "⊞", "⊟", "⊠",
        ],
        Package::MathDoubleStruckSets => seq![
            "ℕ", "ℤ", "ℚ", "ℝ", "ℂ", "ℍ", "ℙ",
        ],
        Package::PunctuationWordBasicLatin => seq![
            "_", "-", "'", "’", "ʼ", "`", "·",
        ],
        Package::PunctuationUnderscoreBasic => seq![
            "_",
        ],
        Package::PunctuationUnderscoreExtended => seq![
            "_", "‗", "﹍", "﹎", "﹏",
        ],
        Package::PunctuationSentenceBasicLatin => seq![
            ".", ",", ";", ":", "?", "!", "…", "(", ")", "[", "]", "{",
            "}", "\"", "“", "”", "‘", "’", "–", "—", "/", "\\", "&", "@",
            "$", "~", "|",
        ],
        Package::PunctuationSpanishExtras => seq![
            "¿", "¡",
        ],
        Package::PunctuationGreekAnoTeleia => seq![
            "·",
        ],
        Package::PunctuationHebrewCore => seq![
            "־", "׃", "׳", "״",
        ],
        Package::PunctuationArabicCore => seq![
            "،", "؛", "؟",
        ],
        Package::PunctuationDevanagariCore => seq![
            "।", "॥",
        ],
        Package::PunctuationJapaneseCore => seq![
            "、", "。", "・", "「", "」", "『", "』", "〜", "ー",
        ],
        Package::PunctuationThaiCore => seq![
            "ๆ", "ฯ",
        ],
        Package::PunctuationLaoCore => seq![
            "ໆ",
        ],
        Package::PunctuationTibetanCore => seq![
            "་", "།", "༎",
        ],
        Package::PunctuationMyanmarCore => seq![
            "၊", "။",
        ],
        Package::PunctuationKhmerCore => seq![
            "។", "៕", "៖", "ៗ",
        ],
        Package::PunctuationDashesBasic => seq![
            "-", "–", "—",
        ],
        Package::PunctuationDashesExtended => seq![
            "-", "‐", "-", "‒", "–", "—", "―",
        ],
        Package::PunctuationDashesAll => seq![
            "-", "‐", "-", "‒", "–", "—", "―", "⸺", "⸻", "­",
        ],
        Package::SymbolsAstroBasic => seq![
            "☉", "☽", "☿", "♀", "♂", "♃", "♄", "♅", "♆", "♇", "♁", "⊕",
        ],
        Package::LatinSmallCapsExtended => seq![
            "ᴀ", "ꜱ", "ᴢ", "ᴄ", "ᴅ", "ᴊ", "ᴋ", "ᴍ", "ᴏ", "ᴘ", "ᴛ", "ᴜ",
            "ᴠ", "ᴡ", "ᴇ", "ʙ", "ʀ", "ʏ", "ɢ", "ɴ", "ʟ", "ʜ",
        ],
        Package::BraillePatterns => seq![
            "⠀", "⠁", "⠂", "⠃", "⠄", "⠅", "⠆", "⠇", "⠈", "⠉", "⠊", "⠋",
            "⠌", "⠍", "⠎", "⠏", "⠐", "⠑", "⠒", "⠓", "⠔", "⠕", "⠖", "⠗",
            "⠘", "⠙", "⠚", "⠛", "⠜", "⠝", "⠞", "⠟", "⠠", "⠡", "⠢", "⠣",
            "⠤", "⠥", "⠦", "⠧", "⠨", "⠩", "⠪", "⠫", "⠬", "⠭", "⠮", "⠯",
            "⠰", "⠱", "⠲", "⠳", "⠴", "⠵", "⠶", "⠷", "⠸", "⠹", "⠺", "⠻",
            "⠼", "⠽", "⠾", "⠿", "⡀", "⡁", "⡂", "⡃", "⡄", "⡅", "⡆", "⡇",
            "⡈", "⡉", "⡊", "⡋", "⡌", "⡍", "⡎", "⡏", "⡐", "⡑", "⡒", "⡓",
            "⡔", "⡕", "⡖", "⡗", "⡘", "⡙", "⡚", "⡛", "⡜", "⡝", "⡞", "⡟",
            "⡠", "⡡", "⡢", "⡣", "⡤", "⡥", "⡦", "⡧", "⡨", "⡩", "⡪", "⡫",
            "⡬", "⡭", "⡮", "⡯", "⡰", "⡱", "⡲", "⡳", "⡴", "⡵", "⡶", "⡷",
            "⡸", "⡹", "⡺", "⡻", "⡼", "⡽", "⡾", "⡿", "⢀", "⢁", "⢂", "⢃",
            "⢄", "⢅", "⢆", "⢇", "⢈", "⢉", "⢊", "⢋", "⢌", "⢍", "⢎", "⢏",
            "⢐", "⢑", "⢒", "⢓", "⢔", "⢕", "⢖", "⢗", "⢘", "⢙", "⢚", "⢛",
            "⢜", "⢝", "⢞", "⢟", "⢠", "⢡", "⢢", "⢣", "⢤", "⢥", "⢦", "⢧",
            "⢨", "⢩", "⢪", "⢫", "⢬", "⢭", "⢮", "⢯", "⢰", "⢱", "⢲", "⢳",
            "⢴", "⢵", "⢶", "⢷", "⢸", "⢹", "⢺", "⢻", "⢼", "⢽", "⢾", "⢿",
            "⣀", "⣁", "⣂", "⣃", "⣄", "⣅", "⣆", "⣇", "⣈", "⣉", "⣊", "⣋",
            "⣌", "⣍", "⣎", "⣏", "⣐", "⣑", "⣒", "⣓", "⣔", "⣕", "⣖", "⣗",
            "⣘", "⣙", "⣚", "⣛", "⣜", "⣝", "⣞", "⣟", "⣠", "⣡", "⣢", "⣣",
            "⣤", "⣥", "⣦", "⣧", "⣨", "⣩", "⣪", "⣫", "⣬", "⣭", "⣮", "⣯",
            "⣰", "⣱", "⣲", "⣳", "⣴", "⣵", "⣶", "⣷", "⣸", "⣹", "⣺", "⣻",
            "⣼", "⣽", "⣾", "⣿",
        ],
        Package::SymbolsMusicBasic => seq![
            "♯", "♭", "♮",
        ],
        Package::PunctuationCurrencyExtended => seq![
            "¢", "£", "€", "¥", "¤", "₱", "₪", "₹", "₨", "₩", "₫", "₽",
            "₴", "₺", "₵", "₣", "₡", "₭", "₮", "₲", "₳", "₸", "₼", "₾",
            "₥", "₢", "₤",
        ],
        Package::PunctuationLetterlikeSymbols => seq![
            "℻", "◌", "№", "℀", "℁", "℅", "℆", "℞", "℗", "℡", "℠", "™",
        ],
        Package::PunctuationPrimesBasic => seq![
            "′", "″", "‴", "⁗", "‵", "‶", "‷",
        ],
        Package::HawaiianCoreUpper => seq![
            "A", "E", "I", "O", "U", "H", "K", "L", "M", "N", "P", "W",
            "Ā", "Ē", "Ī", "Ō", "Ū",
        ],
        Package::HawaiianCoreLower => seq![
            "a", "e", "i", "o", "u", "h", "k", "l", "m", "n", "p", "w",
            "ā", "ē", "ī", "ō", "ū",
        ],
        Package::HawaiianOkina => seq![
            "ʻ",
        ],
        Package::PunctuationSectionsBasic => seq![
            "§", "¶",
        ],
    }
}

impl Package {
    /// The tokens of this package, in catalogue order.
    pub fn tokens(self) -> (r: &'static [&'static str])
        ensures
            r@ == package_tokens(self),
    {
        match self {
            Package::LatinAsciiUpper => &[
                "A", "B", "C", "D", "E", "F", "G", "H", "I", "J", "K", "L",
                "M", "N", "O", "P", "Q", "R", "S", "T", "U", "V", "W", "X",
                "Y", "Z",
            ],
            Package::LatinAsciiLower => &[
                "a", "b", "c", "d", "e", "f", "g", "h", "i", "j", "k", "l",
                "m", "n", "o", "p", "q", "r", "s", "t", "u", "v", "w", "x",
                "y", "z",
            ],
            Package::SpanishCoreUpper => &[
                "Ñ",
            ],
            Package::SpanishCoreLower => &[
                "ñ",
            ],
            Package::FrenchAccentsUpper => &[
                "À", "Â", "Ä", "Ç", "É", "È", "Ê", "Ë", "Î", "Ï", "Ô", "Ö",
                "Ù", "Û", "Ü", "Ÿ",
            ],
            Package::FrenchAccentsLower => &[
                "à", "â", "ä", "ç", "é", "è", "ê", "ë", "î", "ï", "ô", "ö",
                "ù", "û", "ü", "ÿ",
            ],
            Package::GermanExtrasUpper => &[
                "Ä", "Ö", "Ü", "ẞ",
            ],
            Package::GermanExtrasLower => &[
                "ä", "ö", "ü", "ß",
            ],
            Package::ItalianCoreUpper => &[
                "À", "È", "É", "Ì", "Ò", "Ù",
            ],
            Package::ItalianCoreLower => &[
                "à", "è", "é", "ì", "ò", "ù",
            ],
            Package::PortugueseCoreUpper => &[
                "Ã", "Õ", "Â", "Ê", "Ô", "Á", "É", "Í", "Ó", "Ú",
            ],
            Package::PortugueseCoreLower => &[
                "ã", "õ", "â", "ê", "ô", "á", "é", "í", "ó", "ú",
            ],
            Package::DanishNorwegianUpper => &[
                "Å", "Æ", "Ø",
            ],
            Package::DanishNorwegianLower => &[
                "å", "æ", "ø",
            ],
            Package::SwedishUpper => &[
                "Å", "Ä", "Ö",
            ],
            Package::SwedishLower => &[
                "å", "ä", "ö",
            ],
            Package::IcelandicUpper => &[
                "Á", "Ð", "É", "Í", "Ó", "Ú", "Ý", "Þ", "Æ", "Ö",
            ],
            Package::IcelandicLower => &[
                "á", "ð", "é", "í", "ó", "ú", "ý", "þ", "æ", "ö",
            ],
            Package::LithuanianUpper => &[
                "Ą", "Č", "Ę", "Ė", "Į", "Š", "Ų", "Ū", "Ž",
            ],
            Package::LithuanianLower => &[
                "ą", "č", "ę", "ė", "į", "š", "ų", "ū", "ž",
            ],
            Package::LatvianUpper => &[
                "Ā", "Č", "Ē", "Ģ", "Ī", "Ķ", "Ļ", "Ņ", "Š", "Ū", "Ž",
            ],
            Package::LatvianLower => &[
                "ā", "č", "ē", "ģ", "ī", "ķ", "ļ", "ņ", "š", "ū", "ž",
            ],
            Package::CzechUpper => &[
                "Á", "Č", "Ď", "É", "Ě", "Í", "Ň", "Ó", "Ř", "Š", "Ť", "Ú",
                "Ů", "Ý", "Ž",
            ],
            Package::CzechLower => &[
                "á", "č", "ď", "é", "ě", "í", "ň", "ó", "ř", "š", "ť", "ú",
                "ů", "ý", "ž",
            ],
            Package::SlovakUpper => &[
                "Á", "Ä", "Č", "Ď", "É", "Í", "Ĺ", "Ľ", "Ň", "Ó", "Ô", "Ŕ",
                "Š", "Ť", "Ú", "Ý", "Ž",
            ],
            Package::SlovakLower => &[
                "á", "ä", "č", "ď", "é", "í", "ĺ", "ľ", "ň", "ó", "ô", "ŕ",
                "š", "ť", "ú", "ý", "ž",
            ],
            Package::SloveneBCSUpper => &[
                "Č", "Ć", "Đ", "Š", "Ž",
            ],
            Package::SloveneBCSLower => &[
                "č", "ć", "đ", "š", "ž",
            ],
            Package::HungarianUpper => &[
                "Á", "É", "Í", "Ó", "Ö", "Ő", "Ú", "Ü", "Ű",
            ],
            Package::HungarianLower => &[
                "á", "é", "í", "ó", "ö", "ő", "ú", "ü", "ű",
            ],
            Package::PolishUpper => &[
                "Ą", "Ć", "Ę", "Ł", "Ń", "Ó", "Ś", "Ź", "Ż",
            ],
            Package::PolishLower => &[
                "ą", "ć", "ę", "ł", "ń", "ó", "ś", "ź", "ż",
            ],
            Package::RomanianUpper => &[
                "Ă", "Â", "Î", "Ș", "Ț",
            ],
            Package::RomanianLower => &[
                "ă", "â", "î", "ș", "ț",
            ],
            Package::WelshUpper => &[
                "Â", "Ê", "Î", "Ô", "Û", "Ŵ", "Ŷ",
            ],
            Package::WelshLower => &[
                "â", "ê", "î", "ô", "û", "ŵ", "ŷ",
            ],
            Package::GaelicUpper => &[
                "À", "È", "Ì", "Ò", "Ù",
            ],
            Package::GaelicLower => &[
                "à", "è", "ì", "ò", "ù",
            ],
            Package::MalteseUpper => &[
                "Ċ", "Ġ", "Ħ", "Ż",
            ],
            Package::MalteseLower => &[
                "ċ", "ġ", "ħ", "ż",
            ],
            Package::TurkishAzeriUpper => &[
                "Ç", "Ğ", "İ", "Ö", "Ş", "Ü",
            ],
            Package::TurkishAzeriLower => &[
                "ç", "ğ", "ı", "ö", "ş", "ü",
            ],
            Package::GreenlandicUpper => &[
                "Ŋ",
            ],
            Package::GreenlandicLower => &[
                "ŋ", "ĸ",
            ],
            Package::LatinLigaturesUpper => &[
                "Æ", "Œ", "Ĳ", "ẞ",
            ],
            Package::LatinLigaturesLower => &[
                "æ", "œ", "ĳ", "ß", "ﬀ", "ﬁ", "ﬂ", "ﬃ", "ﬄ",
            ],
            Package::LatinDigraphsCommon => &[
                "tsch", "sch", "stj", "skj", "tch", "sci", "gli", "eau", "que", "qui", "gue", "gui",
                "gh", "ph", "qu", "th", "sh", "zh", "ch", "ll", "rr", "gn", "nh", "lh",
                "dd", "ff", "ng", "rh", "kj", "tj", "sj", "hv", "hj", "gj", "ij", "tx",
                "ts", "tz", "TSCH", "SCH", "STJ", "SKJ", "TCH", "SCI", "GLI", "EAU", "QUE", "QUI",
                "GUE", "GUI", "GH", "PH", "QU", "TH", "SH", "ZH", "CH", "LL", "RR", "GN",
                "NH", "LH", "DD", "FF", "NG", "RH", "KJ", "TJ", "SJ", "HV", "HJ", "GJ",
                "IJ", "TX", "TS", "TZ",
            ],
            Package::LatinDigraphsCatalan => &[
                "l·l", "L·L",
            ],
            Package::LatinDigraphsMaltese => &[
                "għ", "GĦ",
            ],
            Package::LatinDigraphsAll => &[
                "tsch", "sch", "stj", "skj", "tch", "sci", "gli", "eau", "que", "qui", "gue", "gui",
                "gh", "ph", "qu", "th", "sh", "zh", "ch", "ll", "rr", "gn", "nh", "lh",
                "dd", "ff", "ng", "rh", "kj", "tj", "sj", "hv", "hj", "gj", "ij", "tx",
                "ts", "tz", "TSCH", "SCH", "STJ", "SKJ", "TCH", "SCI", "GLI", "EAU", "QUE", "QUI",
                "GUE", "GUI", "GH", "PH", "QU", "TH", "SH", "ZH", "CH", "LL", "RR", "GN",
                "NH", "LH", "DD", "FF", "NG", "RH", "KJ", "TJ", "SJ", "HV", "HJ", "GJ",
                "IJ", "TX", "TS", "TZ", "l·l", "L·L", "għ", "GĦ",
            ],
            Package::LatinIpaCore => &[
                "ɐ", "ɑ", "ɒ", "æ", "ə", "ɚ", "ɜ", "ɞ", "ɛ", "ɘ", "ɵ", "ɤ",
                "ɔ", "ʌ", "ɯ", "ʊ", "ɨ", "ʉ", "ɪ", "ʏ", "ɶ", "β", "θ", "ð",
                "ʃ", "ʒ", "ʂ", "ʐ", "ç", "ʝ", "ɣ", "χ", "ʁ", "ħ", "ʕ", "ɦ",
                "ɸ", "ʍ", "ɥ", "ʋ", "ɹ", "ɾ", "ɽ", "ɻ", "ʀ", "ɫ", "ʎ", "ɭ",
                "ɮ", "ɬ", "ɱ", "ɲ", "ɳ", "ŋ", "ɴ", "ʈ", "ɖ", "ɟ", "ɢ", "ʔ",
                "ɡ", "ʡ", "ʢ",
            ],
            Package::LatinIpaModifiers => &[
                "ˈ", "ˌ", "ː", "ˑ", "˞", "ʰ", "ʷ", "ʲ", "ʼ", "\u{0361}", "\u{035C}", "\u{0303}",
                "\u{0308}", "\u{0329}", "\u{032F}", "\u{031F}", "\u{0320}", "\u{032A}", "\u{033A}", "\u{033B}",
            ],
            Package::LatinClicks => &[
                "ǀ", "ǁ", "ǂ", "ǃ",
            ],
            Package::LatinPinyinUpper => &[
                "Ā", "Á", "Ǎ", "À", "Ē", "É", "Ě", "È", "Ī", "Í", "Ǐ", "Ì",
                "Ō", "Ó", "Ǒ", "Ò", "Ū", "Ú", "Ǔ", "Ù", "Ǖ", "Ǘ", "Ǚ", "Ǜ",
                "Ü", "M̄", "Ḿ", "M̌", "M̀", "N̄", "Ń", "Ň", "Ǹ",
            ],
            Package::LatinPinyinLower => &[
                "ā", "á", "ǎ", "à", "ē", "é", "ě", "è", "ī", "í", "ǐ", "ì",
                "ō", "ó", "ǒ", "ò", "ū", "ú", "ǔ", "ù", "ǖ", "ǘ", "ǚ", "ǜ",
                "ü", "m̄", "ḿ", "m̌", "m̀", "n̄", "ń", "ň", "ǹ",
            ],
            Package::GreekCaps => &[
                "Α", "Β", "Γ", "Δ", "Ε", "Ζ", "Η", "Θ", "Ι", "Κ", "Λ", "Μ",
                "Ν", "Ξ", "Ο", "Π", "Ρ", "Σ", "Τ", "Υ", "Φ", "Χ", "Ψ", "Ω",
            ],
            Package::GreekLowerBase => &[
                "α", "β", "γ", "δ", "ε", "ζ", "η", "θ", "ι", "κ", "λ", "μ",
                "ν", "ξ", "ο", "π", "ρ", "σ", "τ", "υ", "φ", "χ", "ψ", "ω",
                "ς",
            ],
            Package::GreekMonotonicMarksUpper => &[
                "Ά", "Έ", "Ή", "Ί", "Ό", "Ύ", "Ώ", "Ϊ", "Ϋ",
            ],
            Package::GreekMonotonicMarksLower => &[
                "ά", "έ", "ή", "ί", "ό", "ύ", "ώ", "ϊ", "ΐ", "ϋ", "ΰ",
            ],
            Package::CyrillicRuCaps => &[
                "А", "Б", "В", "Г", "Д", "Е", "Ё", "Ж", "З", "И", "Й", "К",
                "Л", "М", "Н", "О", "П", "Р", "С", "Т", "У", "Ф", "Х", "Ц",
                "Ч", "Ш", "Щ", "Ъ", "Ы", "Ь", "Э", "Ю", "Я",
            ],
            Package::CyrillicRuLower => &[
                "а", "б", "в", "г", "д", "е", "ё", "ж", "з", "и", "й", "к",
                "л", "м", "н", "о", "п", "р", "с", "т", "у", "ф", "х", "ц",
                "ч", "ш", "щ", "ъ", "ы", "ь", "э", "ю", "я",
            ],
            Package::CyrillicBgCaps => &[
                "А", "Б", "В", "Г", "Д", "Е", "Ж", "З", "И", "Й", "К", "Л",
                "М", "Н", "О", "П", "Р", "С", "Т", "У", "Ф", "Х", "Ц", "Ч",
                "Ш", "Щ", "Ъ", "Ь", "Ю", "Я",
            ],
            Package::CyrillicBgLower => &[
                "а", "б", "в", "г", "д", "е", "ж", "з", "и", "й", "к", "л",
                "м", "н", "о", "п", "р", "с", "т", "у", "ф", "х", "ц", "ч",
                "ш", "щ", "ъ", "ь", "ю", "я",
            ],
            Package::CyrillicUkCaps => &[
                "Ґ", "Є", "І", "Ї",
            ],
            Package::CyrillicUkLower => &[
                "ґ", "є", "і", "ї",
            ],
            Package::CyrillicBeCaps => &[
                "Ў",
            ],
            Package::CyrillicBeLower => &[
                "ў",
            ],
            Package::CyrillicSrMeCaps => &[
                "Ђ", "Ћ", "Ј", "Љ", "Њ", "Џ",
            ],
            Package::CyrillicSrMeLower => &[
                "ђ", "ћ", "ј", "љ", "њ", "џ",
            ],
            Package::CyrillicMkCaps => &[
                "Ѓ", "Ќ", "Ѕ",
            ],
            Package::CyrillicMkLower => &[
                "ѓ", "ќ", "ѕ",
            ],
            Package::ArmenianCaps => &[
                "Ա", "Բ", "Գ", "Դ", "Ե", "Զ", "Է", "Ը", "Թ", "Ժ", "Ի", "Լ",
                "Խ", "Ծ", "Կ", "Հ", "Ձ", "Ղ", "Ճ", "Մ", "Յ", "Ն", "Շ", "Ո",
                "Չ", "Պ", "Ջ", "Ռ", "Ս", "Վ", "Տ", "Ր", "Ց", "Ւ", "Փ", "Ք",
                "Օ", "Ֆ",
            ],
            Package::ArmenianLower => &[
                "ա", "բ", "գ", "դ", "ե", "զ", "է", "ը", "թ", "ժ", "ի", "լ",
                "խ", "ծ", "կ", "հ", "ձ", "ղ", "ճ", "մ", "յ", "ն", "շ", "ո",
                "չ", "պ", "ջ", "ռ", "ս", "վ", "տ", "ր", "ց", "ւ", "փ", "ք",
                "օ", "ֆ",
            ],
            Package::GeorgianMkhedruli => &[
                "ა", "ბ", "გ", "დ", "ე", "ვ", "ზ", "თ", "ი", "კ", "ლ", "მ",
                "ნ", "ო", "პ", "ჟ", "რ", "ს", "ტ", "უ", "ფ", "ქ", "ღ", "ყ",
                "შ", "ჩ", "ც", "ძ", "წ", "ჭ", "ხ", "ჯ", "ჰ",
            ],
            Package::GeorgianMtavruli => &[
                "Ა", "Ბ", "Გ", "Დ", "Ე", "Ვ", "Ზ", "Თ", "Ი", "Კ", "Ლ", "Მ",
                "Ნ", "Ო", "Პ", "Ჟ", "Რ", "Ს", "Ტ", "Უ", "Ფ", "Ქ", "Ღ", "Ყ",
                "Შ", "Ჩ", "Ც", "Ძ", "Წ", "Ჭ", "Ხ", "Ჯ", "Ჰ",
            ],
            Package::Hebrew => &[
                "א", "ב", "ג", "ד", "ה", "ו", "ז", "ח", "ט", "י", "כ", "ך",
                "ל", "מ", "ם", "נ", "ן", "ס", "ע", "פ", "ף", "צ", "ץ", "ק",
                "ר", "ש", "ת",
            ],
            Package::CherokeeUpper => &[
                "Ꭰ", "Ꭱ", "Ꭲ", "Ꭳ", "Ꭴ", "Ꭵ", "Ꭶ", "Ꭷ", "Ꭸ", "Ꭹ", "Ꭺ", "Ꭻ",
                "Ꭼ", "Ꭽ", "Ꭾ", "Ꭿ", "Ꮀ", "Ꮁ", "Ꮂ", "Ꮃ", "Ꮄ", "Ꮅ", "Ꮆ", "Ꮇ",
                "Ꮈ", "Ꮉ", "Ꮊ", "Ꮋ", "Ꮌ", "Ꮍ", "Ꮎ", "Ꮏ", "Ꮐ", "Ꮑ", "Ꮒ", "Ꮓ",
                "Ꮔ", "Ꮕ", "Ꮖ", "Ꮗ", "Ꮘ", "Ꮙ", "Ꮚ", "Ꮛ", "Ꮜ", "Ꮝ", "Ꮞ", "Ꮟ",
                "Ꮠ", "Ꮡ", "Ꮢ", "Ꮣ", "Ꮤ", "Ꮥ", "Ꮦ", "Ꮧ", "Ꮨ", "Ꮩ", "Ꮪ", "Ꮫ",
                "Ꮬ", "Ꮭ", "Ꮮ", "Ꮯ", "Ꮰ", "Ꮱ", "Ꮲ", "Ꮳ", "Ꮴ", "Ꮵ", "Ꮶ", "Ꮷ",
                "Ꮸ", "Ꮹ", "Ꮺ", "Ꮻ", "Ꮼ", "Ꮽ", "Ꮾ", "Ꮿ", "Ᏸ", "Ᏹ", "Ᏺ", "Ᏻ",
                "Ᏼ",
            ],
            Package::CherokeeSmall => &[
                "ꭰ", "ꭱ", "ꭲ", "ꭳ", "ꭴ", "ꭵ", "ꭶ", "ꭷ", "ꭸ", "ꭹ", "ꭺ", "ꭻ",
                "ꭼ", "ꭽ", "ꭾ", "ꭿ", "ꮀ", "ꮁ", "ꮂ", "ꮃ", "ꮄ", "ꮅ", "ꮆ", "ꮇ",
                "ꮈ", "ꮉ", "ꮊ", "ꮋ", "ꮌ", "ꮍ", "ꮎ", "ꮏ", "ꮐ", "ꮑ", "ꮒ", "ꮓ",
                "ꮔ", "ꮕ", "ꮖ", "ꮗ", "ꮘ", "ꮙ", "ꮚ", "ꮛ", "ꮜ", "ꮝ", "ꮞ", "ꮟ",
                "ꮠ", "ꮡ", "ꮢ", "ꮣ", "ꮤ", "ꮥ", "ꮦ", "ꮧ", "ꮨ", "ꮩ", "ꮪ", "ꮫ",
                "ꮬ", "ꮭ", "ꮮ", "ꮯ", "ꮰ", "ꮱ", "ꮲ", "ꮳ", "ꮴ", "ꮵ", "ꮶ", "ꮷ",
                "ꮸ", "ꮹ", "ꮺ", "ꮻ", "ꮼ", "ꮽ", "ꮾ", "ꮿ", "ꯀ", "ꯁ", "ꯂ", "ꯃ",
                "ꯄ",
            ],
            Package::InuktitutCore => &[
                "ᐁ", "ᐃ", "ᐅ", "ᐊ", "ᐯ", "ᐱ", "ᐳ", "ᐸ", "ᑌ", "ᑎ", "ᑐ", "ᑕ",
                "ᑭ", "ᑯ", "ᑲ", "ᒋ", "ᒍ", "ᒐ", "ᒥ", "ᒧ", "ᒪ", "ᓂ", "ᓄ", "ᓇ",
                "ᓯ", "ᓱ", "ᓴ", "ᔑ", "ᔓ", "ᔕ", "ᕕ", "ᕗ", "ᕙ", "ᕿ", "ᖁ", "ᖃ",
                "ᖏ", "ᖑ", "ᖓ", "ᖠ", "ᖢ", "ᖤ",
            ],
            Package::CreeCore => &[
                "ᐁ", "ᐃ", "ᐄ", "ᐅ", "ᐆ", "ᐊ", "ᐋ", "ᐯ", "ᐱ", "ᐳ", "ᐸ", "ᑌ",
                "ᑎ", "ᑐ", "ᑕ", "ᑭ", "ᑯ", "ᑲ", "ᒋ", "ᒍ", "ᒐ", "ᒥ", "ᒧ", "ᒪ",
                "ᓂ", "ᓄ", "ᓇ", "ᓯ", "ᓰ", "ᓱ", "ᓴ", "ᔑ", "ᔓ", "ᔕ", "ᕁ", "ᕃ",
            ],
            Package::Hiragana => &[
                "あ", "い", "う", "え", "お", "か", "き", "く", "け", "こ", "が", "ぎ",
                "ぐ", "げ", "ご", "さ", "し", "す", "せ", "そ", "ざ", "じ", "ず", "ぜ",
                "ぞ", "た", "ち", "つ", "て", "と", "だ", "ぢ", "づ", "で", "ど", "な",
                "に", "ぬ", "ね", "の", "は", "ひ", "ふ", "へ", "ほ", "ば", "び", "ぶ",
                "べ", "ぼ", "ぱ", "ぴ", "ぷ", "ぺ", "ぽ", "ま", "み", "む", "め", "も",
                "や", "ゆ", "よ", "ら", "り", "る", "れ", "ろ", "わ", "ゐ", "ゑ", "を",
                "ん", "ぁ", "ぃ", "ぅ", "ぇ", "ぉ", "ゃ", "ゅ", "ょ", "っ", "ゎ", "ゔ",
                "ゕ", "ゖ",
            ],
            Package::Katakana => &[
                "ア", "イ", "ウ", "エ", "オ", "カ", "キ", "ク", "ケ", "コ", "ガ", "ギ",
                "グ", "ゲ", "ゴ", "サ", "シ", "ス", "セ", "ソ", "ザ", "ジ", "ズ", "ゼ",
                "ゾ", "タ", "チ", "ツ", "テ", "ト", "ダ", "ヂ", "ヅ", "デ", "ド", "ナ",
                "ニ", "ヌ", "ネ", "ノ", "ハ", "ヒ", "フ", "ヘ", "ホ", "バ", "ビ", "ブ",
                "ベ", "ボ", "パ", "ピ", "プ", "ペ", "ポ", "マ", "ミ", "ム", "メ", "モ",
                "ヤ", "ユ", "ヨ", "ラ", "リ", "ル", "レ", "ロ", "ワ", "ヰ", "ヱ", "ヲ",
                "ン", "ァ", "ィ", "ゥ", "ェ", "ォ", "ャ", "ュ", "ョ", "ッ", "ヮ", "ヵ",
                "ヶ", "ヴ", "ヷ", "ヸ", "ヹ", "ヺ", "ー",
            ],
            Package::HangulJamoL => &[
                "ᄀ", "ᄁ", "ᄂ", "ᄃ", "ᄄ", "ᄅ", "ᄆ", "ᄇ", "ᄈ", "ᄉ", "ᄊ", "ᄋ",
                "ᄌ", "ᄍ", "ᄎ", "ᄏ", "ᄐ", "ᄑ", "ᄒ",
            ],
            Package::HangulJamoV => &[
                "ᅡ", "ᅢ", "ᅣ", "ᅤ", "ᅥ", "ᅦ", "ᅧ", "ᅨ", "ᅩ", "ᅪ", "ᅫ", "ᅬ",
                "ᅭ", "ᅮ", "ᅯ", "ᅰ", "ᅱ", "ᅲ", "ᅳ", "ᅴ", "ᅵ",
            ],
            Package::HangulJamoT => &[
                "ᆨ", "ᆩ", "ᆪ", "ᆫ", "ᆬ", "ᆭ", "ᆮ", "ᆯ", "ᆰ", "ᆱ", "ᆲ", "ᆳ",
                "ᆴ", "ᆵ", "ᆶ", "ᆷ", "ᆸ", "ᆹ", "ᆺ", "ᆻ", "ᆼ", "ᆽ", "ᆾ", "ᆿ",
                "ᇀ", "ᇁ", "ᇂ",
            ],
            Package::HangulJamoAll => &[
                "ᄀ", "ᄁ", "ᄂ", "ᄃ", "ᄄ", "ᄅ", "ᄆ", "ᄇ", "ᄈ", "ᄉ", "ᄊ", "ᄋ",
                "ᄌ", "ᄍ", "ᄎ", "ᄏ", "ᄐ", "ᄑ", "ᄒ", "ᅡ", "ᅢ", "ᅣ", "ᅤ", "ᅥ",
                "ᅦ", "ᅧ", "ᅨ", "ᅩ", "ᅪ", "ᅫ", "ᅬ", "ᅭ", "ᅮ", "ᅯ", "ᅰ", "ᅱ",
                "ᅲ", "ᅳ", "ᅴ", "ᅵ", "ᆨ", "ᆩ", "ᆪ", "ᆫ", "ᆬ", "ᆭ", "ᆮ", "ᆯ",
                "ᆰ", "ᆱ", "ᆲ", "ᆳ", "ᆴ", "ᆵ", "ᆶ", "ᆷ", "ᆸ", "ᆹ", "ᆺ", "ᆻ",
                "ᆼ", "ᆽ", "ᆾ", "ᆿ", "ᇀ", "ᇁ", "ᇂ",
            ],
            Package::EthiopicCore => &[
                "ሀ", "ለ", "ሐ", "መ", "ሠ", "ረ", "ሰ", "ሸ", "ቀ", "ቈ", "ቐ", "ቘ",
                "በ", "ቨ", "ተ", "ቸ", "ኀ", "ኈ", "ነ", "ኘ", "አ", "ከ", "ኸ", "ወ",
                "ዐ", "ዘ", "ዠ", "የ", "ደ", "ጀ", "ገ", "ጘ", "ጠ", "ጨ", "ጰ", "ጸ",
                "ፀ", "ፈ", "ፐ",
            ],
            Package::ArabicCore => &[
                "ء", "آ", "أ", "ؤ", "إ", "ئ", "ا", "ب", "ت", "ث", "ج", "ح",
                "خ", "د", "ذ", "ر", "ز", "س", "ش", "ص", "ض", "ط", "ظ", "ع",
                "غ", "ف", "ق", "ك", "ل", "م", "ن", "ه", "ة", "و", "ى", "ي",
                "ػ", "ؼ", "ؽ", "ؾ", "ؿ", "ـ",
            ],
            Package::PersianUrduExtras => &[
                "پ", "چ", "ژ", "گ", "ک", "ی", "ٹ", "ڈ", "ڑ", "ں", "ھ", "ہ",
                "ۂ", "ۃ", "ے", "ۓ", "ڤ", "ڠ",
            ],
            Package::SyriacCore => &[
                "ܐ", "ܒ", "ܓ", "ܕ", "ܗ", "ܘ", "ܙ", "ܚ", "ܛ", "ܝ", "ܟ", "ܠ",
                "ܡ", "ܢ", "ܣ", "ܥ", "ܦ", "ܨ", "ܩ", "ܪ", "ܫ", "ܬ", "ܑ", "ܔ",
                "ܜ", "ܞ", "ܤ", "ܧ",
            ],
            Package::ThaanaCore => &[
                "ހ", "ށ", "ނ", "ރ", "ބ", "ޅ", "ކ", "އ", "ވ", "މ", "ފ", "ދ",
                "ތ", "ލ", "ގ", "ޏ", "ސ", "ޑ", "ޒ", "ޓ", "ޔ", "ޕ", "ޖ", "ޗ",
                "ޘ", "ޙ", "ޚ", "ޛ", "ޜ", "ޝ", "ޞ", "ޟ", "ޠ", "ޡ", "ޢ", "ޣ",
                "ޤ", "ޥ", "ަ", "ާ", "ި", "ީ", "ު", "ޫ", "ެ", "ޭ", "ޮ", "ޯ",
                "ް", "ޱ",
            ],
            Package::DevanagariCore => &[
                "अ", "आ", "इ", "ई", "उ", "ऊ", "ऋ", "ॠ", "ऌ", "ॡ", "ए", "ऐ",
                "ओ", "औ", "अं", "अः", "ँ", "ं", "ः", "्", "क", "ख", "ग", "घ",
                "ङ", "च", "छ", "ज", "झ", "ञ", "ट", "ठ", "ड", "ढ", "ण", "त",
                "थ", "द", "ध", "न", "प", "फ", "ब", "भ", "म", "य", "र", "ल",
                "व", "श", "ष", "स", "ह", "ळ", "क्ष", "ज्ञ",
            ],
            Package::BengaliCore => &[
                "অ", "আ", "ই", "ঈ", "উ", "ঊ", "ঋ", "ৠ", "ঌ", "ৡ", "এ", "ঐ",
                "ও", "ঔ", "ঁ", "ং", "ঃ", "্", "ক", "খ", "গ", "ঘ", "ঙ", "চ",
                "ছ", "জ", "ঝ", "ঞ", "ট", "ঠ", "ড", "ঢ", "ণ", "ত", "থ", "দ",
                "ধ", "ন", "প", "ফ", "ব", "ভ", "ম", "য", "র", "ল", "শ", "ষ",
                "স", "হ", "ড\u{09BC}", "ঢ\u{09BC}", "য\u{09BC}", "ৎ",
            ],
            Package::GurmukhiCore => &[
                "ਅ", "ਆ", "ਇ", "ਈ", "ਉ", "ਊ", "ਏ", "ਐ", "ਓ", "ਔ", "ਅੰ", "ਅਃ",
                "ਂ", "ੰ", "ਃ", "੍", "ਕ", "ਖ", "ਗ", "ਘ", "ਙ", "ਚ", "ਛ", "ਜ",
                "ਝ", "ਞ", "ਟ", "ਠ", "ਡ", "ਢ", "ਣ", "ਤ", "ਥ", "ਦ", "ਧ", "ਨ",
                "ਪ", "ਫ", "ਬ", "ਭ", "ਮ", "ਯ", "ਰ", "ਲ", "ਵ", "ਸ", "ਹ", "ਸ\u{0A3C}",
                "ਖ\u{0A3C}", "ਗ\u{0A3C}", "ਜ\u{0A3C}", "ਫ\u{0A3C}", "ਲ\u{0A3C}", "ੜ",
            ],
            Package::GujaratiCore => &[
                "અ", "આ", "ઇ", "ઈ", "ઉ", "ઊ", "ઋ", "ૠ", "ઌ", "ૡ", "એ", "ઐ",
                "ઓ", "ઔ", "અં", "અઃ", "ઁ", "ં", "ઃ", "્", "ક", "ખ", "ગ", "ઘ",
                "ઙ", "ચ", "છ", "જ", "ઝ", "ઞ", "ટ", "ઠ", "ડ", "ઢ", "ણ", "ત",
                "થ", "દ", "ધ", "ન", "પ", "ફ", "બ", "ભ", "મ", "ય", "ર", "લ",
                "વ", "શ", "ષ", "સ", "હ", "ળ", "ક્ષ", "જ્ઞ",
            ],
            Package::OdiaCore => &[
                "ଅ", "ଆ", "ଇ", "ୀ", "ଉ", "ୂ", "ଋ", "ୠ", "ଌ", "ୡ", "ଏ", "ଐ",
                "ଓ", "ଔ", "ଁ", "ଂ", "ଃ", "୍", "କ", "ଖ", "ଗ", "ଘ", "ଙ", "ଚ",
                "ଛ", "ଜ", "ଝ", "ଞ", "ଟ", "ଠ", "ଡ", "ଢ", "ଣ", "ତ", "ଥ", "ଦ",
                "ଧ", "ନ", "ପ", "ଫ", "ବ", "ଭ", "ମ", "ଯ", "ର", "ଲ", "ଵ", "ଶ",
                "ଷ", "ସ", "ହ", "ଳ", "କ୍ଷ",
            ],
            Package::TamilCore => &[
                "அ", "ஆ", "இ", "ஈ", "உ", "ஊ", "எ", "ஏ", "ஐ", "ஒ", "ஓ", "ஔ",
                "ஃ", "க்", "ங்", "ச்", "ஞ்", "ட்", "ண்", "த்", "ந்", "ப்", "ம்", "ய்",
                "ர்", "ல்", "வ்", "ழ்", "ள்", "று", "ன்", "க", "ங", "ச", "ஞ", "ட",
                "ண", "த", "ந", "ப", "ம", "ய", "ர", "ல", "வ", "ழ", "ள", "ற",
                "ன",
            ],
            Package::TeluguCore => &[
                "అ", "ఆ", "ఇ", "ఈ", "ఉ", "ఊ", "ఋ", "ౠ", "ఌ", "ౡ", "ఎ", "ఏ",
                "ఐ", "ఒ", "ఓ", "ఔ", "ఁ", "ం", "ః", "్", "క", "ఖ", "గ", "ఘ",
                "ఙ", "చ", "ఛ", "జ", "ఝ", "ఞ", "ట", "ఠ", "డ", "ఢ", "ణ", "త",
                "థ", "ద", "ధ", "న", "ప", "ఫ", "బ", "భ", "మ", "య", "ర", "ల",
                "వ", "శ", "ష", "స", "హ", "ళ", "క్ష", "జ్ఞ",
            ],
            Package::KannadaCore => &[
                "ಅ", "ಆ", "ಇ", "ಈ", "ಉ", "ಊ", "ಋ", "ೠ", "ಌ", "ೡ", "ಎ", "ಏ",
                "ಐ", "ಒ", "ಓ", "ಔ", "ಂ", "ಃ", "್", "ಕ", "ಖ", "ಗ", "ಘ", "ಙ",
                "ಚ", "ಛ", "ಜ", "ಝ", "ಞ", "ಟ", "ಠ", "ಡ", "ಢ", "ಣ", "ತ", "ಥ",
                "ದ", "ಧ", "ನ", "ಪ", "ಫ", "ಬ", "ಭ", "ಮ", "ಯ", "ರ", "ಲ", "ವ",
                "ಶ", "ಷ", "ಸ", "ಹ", "ಳ", "ೞ", "ಕ್ಷ", "ಜ್ಞ",
            ],
            Package::MalayalamCore => &[
                "അ", "ആ", "ഇ", "ഈ", "ഉ", "ഊ", "ഋ", "ൠ", "ഌ", "ൡ", "എ", "ഏ",
                "ഐ", "ഒ", "ഓ", "ഔ", "ം", "ഃ", "്", "ക", "ഖ", "ഗ", "ഘ", "ങ",
                "ച", "ഛ", "ജ", "ഝ", "ഞ", "ട", "ഠ", "ഡ", "ഢ", "ണ", "ത", "ഥ",
                "ദ", "ധ", "ന", "പ", "ഫ", "ബ", "ഭ", "മ", "യ", "ര", "ല", "വ",
                "ശ", "ഷ", "സ", "ഹ", "ള", "ഴ", "റ", "ക്ഷ", "ജ്ഞ",
            ],
            Package::SinhalaCore => &[
                "අ", "ආ", "ඉ", "ඊ", "උ", "ඌ", "ඍ", "ඎ", "ඏ", "ඐ", "එ", "ඒ",
                "ඓ", "ඔ", "ඕ", "ඖ", "ං", "ඃ", "්", "ක", "ඛ", "ග", "ඝ", "ඞ",
                "ච", "ඡ", "ජ", "ඣ", "ඤ", "ට", "ඨ", "ඩ", "ඪ", "ණ", "ත", "ථ",
                "ද", "ධ", "න", "ප", "ඵ", "බ", "භ", "ම", "ය", "ර", "ල", "ව",
                "ශ", "ෂ", "ස", "හ", "ළ", "ෆ", "ක්‍ෂ",
            ],
            Package::ThaiCore => &[
                "ก", "ข", "ฃ", "ค", "ฅ", "ฆ", "ง", "จ", "ฉ", "ช", "ซ", "ฌ",
                "ญ", "ฎ", "ฏ", "ฐ", "ฑ", "ฒ", "ณ", "ด", "ต", "ถ", "ท", "ธ",
                "น", "บ", "ป", "ผ", "ฝ", "พ", "ฟ", "ภ", "ม", "ย", "ร", "ล",
                "ฤ", "ฦ", "ว", "ศ", "ษ", "ส", "ห", "ฬ", "อ", "ฮ", "ะ", "า",
                "ิ", "ี", "ึ", "ื", "ุ", "ู", "โ", "ไ", "ใ", "เ", "แ", "ำ",
                "ั", "่", "้", "๊", "๋", "์", "็", "ๅ", "ๆ",
            ],
            Package::LaoCore => &[
                "ກ", "ຂ", "ຄ", "ງ", "ຈ", "ຊ", "ຍ", "ດ", "ຕ", "ຖ", "ທ", "ນ",
                "ບ", "ປ", "ຜ", "ຝ", "ພ", "ຟ", "ມ", "ຢ", "ຣ", "ລ", "ວ", "ສ",
                "ຫ", "ອ", "ຮ", "ະ", "າ", "ິ", "ີ", "ຶ", "ື", "ຸ", "ູ", "ໂ",
                "ໄ", "ໃ", "ເ", "ແ", "ັ", "່", "້", "໊", "໋", "໌", "ໆ",
            ],
            Package::TibetanCore => &[
                "ཀ", "ཁ", "ག", "ང", "ཅ", "ཆ", "ཇ", "ཉ", "ཏ", "ཐ", "ད", "ན",
                "པ", "ཕ", "བ", "མ", "ཙ", "ཚ", "ཛ", "ཝ", "ཞ", "ཟ", "འ", "ཡ",
                "ར", "ལ", "ཤ", "ས", "ཧ", "ཨ", "་", "།", "༎", "གྷ", "ཊ", "ཋ",
                "ཌ", "ཌྷ", "ཎ", "དྷ", "བྷ", "ཛྷ", "ཥ", "ཀྵ", "ཪ",
            ],
            Package::MyanmarCore => &[
                "က", "ခ", "ဂ", "ဃ", "င", "စ", "ဆ", "ဇ", "ဈ", "ည", "ဋ", "ဌ",
                "ဍ", "ဎ", "ဏ", "တ", "ထ", "ဒ", "ဓ", "န", "ပ", "ဖ", "ဗ", "ဘ",
                "မ", "ယ", "ရ", "လ", "ဝ", "သ", "ဟ", "ဠ", "အ", "ါ", "ား", "ိ",
                "ီ", "ု", "ူ", "ေ", "ဲ", "ံ", "့", "္",
            ],
            Package::KhmerCore => &[
                "ក", "ខ", "គ", "ឃ", "ង", "ច", "ឆ", "ជ", "ឈ", "ញ", "ដ", "ឋ",
                "ឌ", "ឍ", "ណ", "ត", "ថ", "ទ", "ធ", "ន", "ប", "ផ", "ព", "ភ",
                "ម", "យ", "រ", "ល", "វ", "ឝ", "ឞ", "ស", "ហ", "ឡ", "អ", "ា",
                "ិ", "ី", "ឹ", "ឺ", "ុ", "ូ", "ើ", "ឿ", "ោះ", "ែ", "ៃ", "ោ",
                "ៅ", "ំ", "ះ", "់", "៌", "៍", "៎", "៏", "័", "៉", "៊",
            ],
            Package::LatinSalishUpper => &[
                "Ḵ",
            ],
            Package::LatinSalishLower => &[
                "ḵ", "k\u{0331}", "g\u{0331}", "q\u{0331}", "x\u{0331}", "k\u{02BC}", "q\u{02BC}", "x\u{02BC}", "t\u{02BC}", "p\u{02BC}", "s\u{02BC}", "k\u{0331}\u{02BC}",
                "q\u{0331}\u{02BC}", "x\u{0331}\u{02BC}",
            ],
            Package::LatinExtendedOgonekUpper => &[
                "Ǫ", "Ǭ",
            ],
            Package::LatinExtendedOgonekLower => &[
                "ǫ", "ǭ",
            ],
            Package::RomanianLegacyCedillaUpper => &[
                "Ş", "Ţ",
            ],
            Package::RomanianLegacyCedillaLower => &[
                "ş", "ţ",
            ],
            Package::LatinAfricanUpper => &[
                "Ɓ", "Ɗ", "Ɠ", "Ƙ", "Ƴ", "Ɛ", "Ɔ", "Ʋ", "Ŋ", "Ɣ", "Ƈ", "Ƥ",
                "Ƭ", "Ɲ", "Ɩ", "Ɨ", "Ƒ",
            ],
            Package::LatinAfricanLower => &[
                "ɓ", "ɗ", "ɠ", "ƙ", "ƴ", "ɛ", "ɔ", "ʋ", "ŋ", "ɣ", "ƈ", "ƥ",
                "ƭ", "ɲ", "ɩ", "ɨ", "ƒ",
            ],
            Package::YorubaUpper => &[
                "Ẹ", "Ọ", "Ṣ",
            ],
            Package::YorubaLower => &[
                "ẹ", "ọ", "ṣ",
            ],
            Package::KikuyuUpper => &[
                "Ĩ", "Ũ",
            ],
            Package::KikuyuLower => &[
                "ĩ", "ũ",
            ],
            Package::EsperantoUpper => &[
                "Ĉ", "Ĝ", "Ĥ", "Ĵ", "Ŝ", "Ŭ",
            ],
            Package::EsperantoLower => &[
                "ĉ", "ĝ", "ĥ", "ĵ", "ŝ", "ŭ",
            ],
            Package::VietnameseUpper => &[
                "A", "Á", "À", "Ả", "Ã", "Ạ", "Ă", "Ắ", "Ằ", "Ẳ", "Ẵ", "Ặ",
                "Â", "Ấ", "Ầ", "Ẩ", "Ẫ", "Ậ", "E", "É", "È", "Ẻ", "Ẽ", "Ẹ",
                "Ê", "Ế", "Ề", "Ể", "Ễ", "Ệ", "I", "Í", "Ì", "Ỉ", "Ĩ", "Ị",
                "O", "Ó", "Ò", "Ỏ", "Õ", "Ọ", "Ô", "Ố", "Ồ", "Ổ", "Ỗ", "Ộ",
                "Ơ", "Ớ", "Ờ", "Ở", "Ỡ", "Ợ", "U", "Ú", "Ù", "Ủ", "Ũ", "Ụ",
                "Ư", "Ứ", "Ừ", "Ử", "Ữ", "Ự", "Y", "Ý", "Ỳ", "Ỷ", "Ỹ", "Ỵ",
                "Đ",
            ],
            Package::VietnameseLower => &[
                "a", "á", "à", "ả", "ã", "ạ", "ă", "ắ", "ằ", "ẳ", "ẵ", "ặ",
                "â", "ấ", "ầ", "ẩ", "ẫ", "ậ", "e", "é", "è", "ẻ", "ẽ", "ẹ",
                "ê", "ế", "ề", "ể", "ễ", "ệ", "i", "í", "ì", "ỉ", "ĩ", "ị",
                "o", "ó", "ò", "ỏ", "õ", "ọ", "ô", "ố", "ồ", "ổ", "ỗ", "ộ",
                "ơ", "ớ", "ờ", "ở", "ỡ", "ợ", "u", "ú", "ù", "ủ", "ũ", "ụ",
                "ư", "ứ", "ừ", "ử", "ữ", "ự", "y", "ý", "ỳ", "ỷ", "ỹ", "ỵ",
                "đ",
            ],
            Package::YorubaTonesUpper => &[
                "Á", "À", "Ā", "É", "È", "Ē", "Í", "Ì", "Ī", "Ó", "Ò", "Ō",
                "Ú", "Ù", "Ū", "Ẹ́", "Ẹ̀", "Ẹ̄", "Ọ́", "Ọ̀", "Ọ̄", "Ń", "Ǹ", "N̄",
                "Ḿ", "M̀", "M̄",
            ],
            Package::YorubaTonesLower => &[
                "á", "à", "ā", "é", "è", "ē", "í", "ì", "ī", "ó", "ò", "ō",
                "ú", "ù", "ū", "ẹ́", "ẹ̀", "ẹ̄", "ọ́", "ọ̀", "ọ̄", "ń", "ǹ", "n̄",
                "ḿ", "m̀", "m̄",
            ],
            Package::DigitsAscii => &[
                "0", "1", "2", "3", "4", "5", "6", "7", "8", "9",
            ],
            Package::DigitsArabicIndic => &[
                "٠", "١", "٢", "٣", "٤", "٥", "٦", "٧", "٨", "٩",
            ],
            Package::DigitsExtendedArabicIndic => &[
                "۰", "۱", "۲", "۳", "۴", "۵", "۶", "۷", "۸", "۹",
            ],
            Package::DigitsDevanagari => &[
                "०", "१", "२", "३", "४", "५", "६", "७", "८", "९",
            ],
            Package::DigitsBengali => &[
                "০", "১", "২", "৩", "৪", "৫", "৬", "৭", "৮", "৯",
            ],
            Package::DigitsGurmukhi => &[
                "੦", "੧", "੨", "੩", "੪", "੫", "੬", "੭", "੮", "੯",
            ],
            Package::DigitsGujarati => &[
                "૦", "૧", "૨", "૩", "૪", "૫", "૬", "૭", "૮", "૯",
            ],
            Package::DigitsOdia => &[
                "୦", "୧", "୨", "୩", "୪", "୫", "୬", "୭", "୮", "୯",
            ],
            Package::DigitsTamil => &[
                "௦", "௧", "௨", "௩", "௪", "௫", "௬", "௭", "௮", "௯",
            ],
            Package::DigitsTelugu => &[
                "౦", "౧", "౨", "౩", "౪", "౫", "౬", "౭", "౮", "౯",
            ],
            Package::DigitsKannada => &[
                "೦", "೧", "೨", "೩", "೪", "೫", "೬", "೭", "೮", "೯",
            ],
            Package::DigitsMalayalam => &[
                "൦", "൧", "൨", "൩", "൪", "൫", "൬", "൭", "൮", "൯",
            ],
            Package::DigitsSinhala => &[
                "෦", "෧", "෨", "෩", "෪", "෫", "෬", "෭", "෮", "෯",
            ],
            Package::DigitsThai => &[
                "๐", "๑", "๒", "๓", "๔", "๕", "๖", "๗", "๘", "๙",
            ],
            Package::DigitsLao => &[
                "໐", "໑", "໒", "໓", "໔", "໕", "໖", "໗", "໘", "໙",
            ],
            Package::DigitsTibetan => &[
                "༠", "༡", "༢", "༣", "༤", "༥", "༦", "༧", "༨", "༩",
            ],
            Package::DigitsMyanmar => &[
                "၀", "၁", "၂", "၃", "၄", "၅", "၆", "၇", "၈", "၉",
            ],
            Package::DigitsKhmer => &[
                "០", "១", "២", "៣", "៤", "៥", "៦", "៧", "៨", "៩",
            ],
            Package::DigitsSuperscriptCore => &[
                "⁰", "¹", "²", "³", "⁴", "⁵", "⁶", "⁷", "⁸", "⁹", "⁺", "⁻",
                "⁼", "⁽", "⁾",
            ],
            Package::DigitsSubscriptCore => &[
                "₀", "₁", "₂", "₃", "₄", "₅", "₆", "₇", "₈", "₉", "₊", "₋",
                "₌", "₍", "₎",
            ],
            Package::MathBasicArithmetic => &[
                "+", "-", "*", "×", "÷", "/", "=", "%", "^", "(", ")", "[",
                "]",
            ],
            Package::MathFullwidthBasicEastAsian => &[
                "＋", "－", "＊", "／", "＝", "％", "＾", "（", "）", "［", "］",
            ],
            Package::MathArabicNumericSymbols => &[
                "٪", "٫", "٬",
            ],
            Package::MathTypographicVariants => &[
                "−", "∙", "⋅", "·",
            ],
            Package::MathAlgebraCore => &[
                "±", "∓", "<", ">", "≤", "≥", "≠", "≈", "∼", "∣", "∥",
            ],
            Package::MathSetRelations => &[
                "∈", "∉", "∋", "⊂", "⊄", "⊆", "⊇", "⊃", "∪", "∩", "∅", "≡",
                "≅", "≃", "≍", "≔", "≕", "≜", "∝",
            ],
            Package::MathCalculusCore => &[
                "∑", "∏", "∫", "∬", "∮", "∂", "∇", "∞", "√", "∆",
            ],
            Package::MathLogicCore => &[
                "¬", "∧", "∨", "⇒", "⇔", "∀", "∃", "∴", "∵", "⊢", "⊨",
            ],
            Package::MathArrowsBasic => &[
                "→", "←", "↔", "↑", "↓",
            ],
            Package::MathArrowsExtended => &[
                "⇒", "⇐", "⇔", "↦", "↣", "↩", "↪", "↗", "↘", "↙", "↖",
            ],
            Package::MathDelimitersExtended => &[
                "⟨", "⟩", "〈", "〉", "⌈", "⌉", "⌊", "⌋", "⎡", "⎤", "⎣", "⎦",
            ],
            Package::MathOperatorsExtended => &[
                "⊕", "⊖", "⊗", "⊘", "⊙", "⊚", "⊛", "⊞", "⊟", "⊠",
            ],
            Package::MathDoubleStruckSets => &[
                "ℕ", "ℤ", "ℚ", "ℝ", "ℂ", "ℍ", "ℙ",
            ],
            Package::PunctuationWordBasicLatin => &[
                "_", "-", "'", "’", "ʼ", "`", "·",
            ],
            Package::PunctuationUnderscoreBasic => &[
                "_",
            ],
            Package::PunctuationUnderscoreExtended => &[
                "_", "‗", "﹍", "﹎", "﹏",
            ],
            Package::PunctuationSentenceBasicLatin => &[
                ".", ",", ";", ":", "?", "!", "…", "(", ")", "[", "]", "{",
                "}", "\"", "“", "”", "‘", "’", "–", "—", "/", "\\", "&", "@",
                "$", "~", "|",
            ],
            Package::PunctuationSpanishExtras => &[
                "¿", "¡",
            ],
            Package::PunctuationGreekAnoTeleia => &[
                "·",
            ],
            Package::PunctuationHebrewCore => &[
                "־", "׃", "׳", "״",
            ],
            Package::PunctuationArabicCore => &[
                "،", "؛", "؟",
            ],
            Package::PunctuationDevanagariCore => &[
                "।", "॥",
            ],
            Package::PunctuationJapaneseCore => &[
                "、", "。", "・", "「", "」", "『", "』", "〜", "ー",
            ],
            Package::PunctuationThaiCore => &[
                "ๆ", "ฯ",
            ],
            Package::PunctuationLaoCore => &[
                "ໆ",
            ],
            Package::PunctuationTibetanCore => &[
                "་", "།", "༎",
            ],
            Package::PunctuationMyanmarCore => &[
                "၊", "။",
            ],
            Package::PunctuationKhmerCore => &[
                "។", "៕", "៖", "ៗ",
            ],
            Package::PunctuationDashesBasic => &[
                "-", "–", "—",
            ],
            Package::PunctuationDashesExtended => &[
                "-", "‐", "-", "‒", "–", "—", "―",
            ],
            Package::PunctuationDashesAll => &[
                "-", "‐", "-", "‒", "–", "—", "―", "⸺", "⸻", "­",
            ],
            Package::SymbolsAstroBasic => &[
                "☉", "☽", "☿", "♀", "♂", "♃", "♄", "♅", "♆", "♇", "♁", "⊕",
            ],
            Package::LatinSmallCapsExtended => &[
                "ᴀ", "ꜱ", "ᴢ", "ᴄ", "ᴅ", "ᴊ", "ᴋ", "ᴍ", "ᴏ", "ᴘ", "ᴛ", "ᴜ",
                "ᴠ", "ᴡ", "ᴇ", "ʙ", "ʀ", "ʏ", "ɢ", "ɴ", "ʟ", "ʜ",
            ],
            Package::BraillePatterns => &[
                "⠀", "⠁", "⠂", "⠃", "⠄", "⠅", "⠆", "⠇", "⠈", "⠉", "⠊", "⠋",
                "⠌", "⠍", "⠎", "⠏", "⠐", "⠑", "⠒", "⠓", "⠔", "⠕", "⠖", "⠗",
                "⠘", "⠙", "⠚", "⠛", "⠜", "⠝", "⠞", "⠟", "⠠", "⠡", "⠢", "⠣",
                "⠤", "⠥", "⠦", "⠧", "⠨", "⠩", "⠪", "⠫", "⠬", "⠭", "⠮", "⠯",
                "⠰", "⠱", "⠲", "⠳", "⠴", "⠵", "⠶", "⠷", "⠸", "⠹", "⠺", "⠻",
                "⠼", "⠽", "⠾", "⠿", "⡀", "⡁", "⡂", "⡃", "⡄", "⡅", "⡆", "⡇",
                "⡈", "⡉", "⡊", "⡋", "⡌", "⡍", "⡎", "⡏", "⡐", "⡑", "⡒", "⡓",
                "⡔", "⡕", "⡖", "⡗", "⡘", "⡙", "⡚", "⡛", "⡜", "⡝", "⡞", "⡟",
                "⡠", "⡡", "⡢", "⡣", "⡤", "⡥", "⡦", "⡧", "⡨", "⡩", "⡪", "⡫",
                "⡬", "⡭", "⡮", "⡯", "⡰", "⡱", "⡲", "⡳", "⡴", "⡵", "⡶", "⡷",
                "⡸", "⡹", "⡺", "⡻", "⡼", "⡽", "⡾", "⡿", "⢀", "⢁", "⢂", "⢃",
                "⢄", "⢅", "⢆", "⢇", "⢈", "⢉", "⢊", "⢋", "⢌", "⢍", "⢎", "⢏",
                "⢐", "⢑", "⢒", "⢓", "⢔", "⢕", "⢖", "⢗", "⢘", "⢙", "⢚", "⢛",
                "⢜", "⢝", "⢞", "⢟", "⢠", "⢡", "⢢", "⢣", "⢤", "⢥", "⢦", "⢧",
                "⢨", "⢩", "⢪", "⢫", "⢬", "⢭", "⢮", "⢯", "⢰", "⢱", "⢲", "⢳",
                "⢴", "⢵", "⢶", "⢷", "⢸", "⢹", "⢺", "⢻", "⢼", "⢽", "⢾", "⢿",
                "⣀", "⣁", "⣂", "⣃", "⣄", "⣅", "⣆", "⣇", "⣈", "⣉", "⣊", "⣋",
                "⣌", "⣍", "⣎", "⣏", "⣐", "⣑", "⣒", "⣓", "⣔", "⣕", "⣖", "⣗",
                "⣘", "⣙", "⣚", "⣛", "⣜", "⣝", "⣞", "⣟", "⣠", "⣡", "⣢", "⣣",
                "⣤", "⣥", "⣦", "⣧", "⣨", "⣩", "⣪", "⣫", "⣬", "⣭", "⣮", "⣯",
                "⣰", "⣱", "⣲", "⣳", "⣴", "⣵", "⣶", "⣷", "⣸", "⣹", "⣺", "⣻",
                "⣼", "⣽", "⣾", "⣿",
            ],
            Package::SymbolsMusicBasic => &[
                "♯", "♭", "♮",
            ],
            Package::PunctuationCurrencyExtended => &[
                "¢", "£", "€", "¥", "¤", "₱", "₪", "₹", "₨", "₩", "₫", "₽",
                "₴", "₺", "₵", "₣", "₡", "₭", "₮", "₲", "₳", "₸", "₼", "₾",
                "₥", "₢", "₤",
            ],
            Package::PunctuationLetterlikeSymbols => &[
                "℻", "◌", "№", "℀", "℁", "℅", "℆", "℞", "℗", "℡", "℠", "™",
            ],
            Package::PunctuationPrimesBasic => &[
                "′", "″", "‴", "⁗", "‵", "‶", "‷",
            ],
            Package::HawaiianCoreUpper => &[
                "A", "E", "I", "O", "U", "H", "K", "L", "M", "N", "P", "W",
                "Ā", "Ē", "Ī", "Ō", "Ū",
            ],
            Package::HawaiianCoreLower => &[
                "a", "e", "i", "o", "u", "h", "k", "l", "m", "n", "p", "w",
                "ā", "ē", "ī", "ō", "ū",
            ],
            Package::HawaiianOkina => &[
                "ʻ",
            ],
            Package::PunctuationSectionsBasic => &[
                "§", "¶",
            ],
        }
    }
}

/// Every package, in declaration order.
pub open spec fn package_list() -> Seq<Package> {
    seq![
        Package::LatinAsciiUpper, Package::LatinAsciiLower, Package::SpanishCoreUpper, Package::SpanishCoreLower,
        Package::FrenchAccentsUpper, Package::FrenchAccentsLower, Package::GermanExtrasUpper, Package::GermanExtrasLower,
        Package::ItalianCoreUpper, Package::ItalianCoreLower, Package::PortugueseCoreUpper, Package::PortugueseCoreLower,
        Package::DanishNorwegianUpper, Package::DanishNorwegianLower, Package::SwedishUpper, Package::SwedishLower,
        Package::IcelandicUpper, Package::IcelandicLower, Package::LithuanianUpper, Package::LithuanianLower,
        Package::LatvianUpper, Package::LatvianLower, Package::CzechUpper, Package::CzechLower,
        Package::SlovakUpper, Package::SlovakLower, Package::SloveneBCSUpper, Package::SloveneBCSLower,
        Package::HungarianUpper, Package::HungarianLower, Package::PolishUpper, Package::PolishLower,
        Package::RomanianUpper, Package::RomanianLower, Package::WelshUpper, Package::WelshLower,
        Package::GaelicUpper, Package::GaelicLower, Package::MalteseUpper, Package::MalteseLower,
        Package::TurkishAzeriUpper, Package::TurkishAzeriLower, Package::GreenlandicUpper, Package::GreenlandicLower,
        Package::LatinLigaturesUpper, Package::LatinLigaturesLower, Package::LatinDigraphsCommon, Package::LatinDigraphsCatalan,
        Package::LatinDigraphsMaltese, Package::LatinDigraphsAll, Package::LatinIpaCore, Package::LatinIpaModifiers,
        Package::LatinClicks, Package::LatinPinyinUpper, Package::LatinPinyinLower, Package::GreekCaps,
        Package::GreekLowerBase, Package::GreekMonotonicMarksUpper, Package::GreekMonotonicMarksLower, Package::CyrillicRuCaps,
        Package::CyrillicRuLower, Package::CyrillicBgCaps, Package::CyrillicBgLower, Package::CyrillicUkCaps,
        Package::CyrillicUkLower, Package::CyrillicBeCaps, Package::CyrillicBeLower, Package::CyrillicSrMeCaps,
        Package::CyrillicSrMeLower, Package::CyrillicMkCaps, Package::CyrillicMkLower, Package::ArmenianCaps,
        Package::ArmenianLower, Package::GeorgianMkhedruli, Package::GeorgianMtavruli, Package::Hebrew,
        Package::CherokeeUpper, Package::CherokeeSmall, Package::InuktitutCore, Package::CreeCore,
        Package::Hiragana, Package::Katakana, Package::HangulJamoL, Package::HangulJamoV,
        Package::HangulJamoT, Package::HangulJamoAll, Package::EthiopicCore, Package::ArabicCore,
        Package::PersianUrduExtras, Package::SyriacCore, Package::ThaanaCore, Package::DevanagariCore,
        Package::BengaliCore, Package::GurmukhiCore, Package::GujaratiCore, Package::OdiaCore,
        Package::TamilCore, Package::TeluguCore, Package::KannadaCore, Package::MalayalamCore,
        Package::SinhalaCore, Package::ThaiCore, Package::LaoCore, Package::TibetanCore,
        Package::MyanmarCore, Package::KhmerCore, Package::LatinSalishUpper, Package::LatinSalishLower,
        Package::LatinExtendedOgonekUpper, Package::LatinExtendedOgonekLower, Package::RomanianLegacyCedillaUpper, Package::RomanianLegacyCedillaLower,
        Package::LatinAfricanUpper, Package::LatinAfricanLower, Package::YorubaUpper, Package::YorubaLower,
        Package::KikuyuUpper, Package::KikuyuLower, Package::EsperantoUpper, Package::EsperantoLower,
        Package::VietnameseUpper, Package::VietnameseLower, Package::YorubaTonesUpper, Package::YorubaTonesLower,
        Package::DigitsAscii, Package::DigitsArabicIndic, Package::DigitsExtendedArabicIndic, Package::DigitsDevanagari,
        Package::DigitsBengali, Package::DigitsGurmukhi, Package::DigitsGujarati, Package::DigitsOdia,
        Package::DigitsTamil, Package::DigitsTelugu, Package::DigitsKannada, Package::DigitsMalayalam,
        Package::DigitsSinhala, Package::DigitsThai, Package::DigitsLao, Package::DigitsTibetan,
        Package::DigitsMyanmar, Package::DigitsKhmer, Package::DigitsSuperscriptCore, Package::DigitsSubscriptCore,
        Package::MathBasicArithmetic, Package::MathFullwidthBasicEastAsian, Package::MathArabicNumericSymbols, Package::MathTypographicVariants,
        Package::MathAlgebraCore, Package::MathSetRelations, Package::MathCalculusCore, Package::MathLogicCore,
        Package::MathArrowsBasic, Package::MathArrowsExtended, Package::MathDelimitersExtended, Package::MathOperatorsExtended,
        Package::MathDoubleStruckSets, Package::PunctuationWordBasicLatin, Package::PunctuationUnderscoreBasic, Package::PunctuationUnderscoreExtended,
        Package::PunctuationSentenceBasicLatin, Package::PunctuationSpanishExtras, Package::PunctuationGreekAnoTeleia, Package::PunctuationHebrewCore,
        Package::PunctuationArabicCore, Package::PunctuationDevanagariCore, Package::PunctuationJapaneseCore, Package::PunctuationThaiCore,
        Package::PunctuationLaoCore, Package::PunctuationTibetanCore, Package::PunctuationMyanmarCore, Package::PunctuationKhmerCore,
        Package::PunctuationDashesBasic, Package::PunctuationDashesExtended, Package::PunctuationDashesAll, Package::SymbolsAstroBasic,
        Package::LatinSmallCapsExtended, Package::BraillePatterns, Package::SymbolsMusicBasic, Package::PunctuationCurrencyExtended,
        Package::PunctuationLetterlikeSymbols, Package::PunctuationPrimesBasic, Package::HawaiianCoreUpper, Package::HawaiianCoreLower,
        Package::HawaiianOkina, Package::PunctuationSectionsBasic,
    ]
}

/// Every package, in declaration order.
pub fn all_packages() -> (r: &'static [Package])
    ensures
        r@ == package_list(),
{
    &[
        Package::LatinAsciiUpper, Package::LatinAsciiLower, Package::SpanishCoreUpper, Package::SpanishCoreLower,
        Package::FrenchAccentsUpper, Package::FrenchAccentsLower, Package::GermanExtrasUpper, Package::GermanExtrasLower,
        Package::ItalianCoreUpper, Package::ItalianCoreLower, Package::PortugueseCoreUpper, Package::PortugueseCoreLower,
        Package::DanishNorwegianUpper, Package::DanishNorwegianLower, Package::SwedishUpper, Package::SwedishLower,
        Package::IcelandicUpper, Package::IcelandicLower, Package::LithuanianUpper, Package::LithuanianLower,
        Package::LatvianUpper, Package::LatvianLower, Package::CzechUpper, Package::CzechLower,
        Package::SlovakUpper, Package::SlovakLower, Package::SloveneBCSUpper, Package::SloveneBCSLower,
        Package::HungarianUpper, Package::HungarianLower, Package::PolishUpper, Package::PolishLower,
        Package::RomanianUpper, Package::RomanianLower, Package::WelshUpper, Package::WelshLower,
        Package::GaelicUpper, Package::GaelicLower, Package::MalteseUpper, Package::MalteseLower,
        Package::TurkishAzeriUpper, Package::TurkishAzeriLower, Package::GreenlandicUpper, Package::GreenlandicLower,
        Package::LatinLigaturesUpper, Package::LatinLigaturesLower, Package::LatinDigraphsCommon, Package::LatinDigraphsCatalan,
        Package::LatinDigraphsMaltese, Package::LatinDigraphsAll, Package::LatinIpaCore, Package::LatinIpaModifiers,
        Package::LatinClicks, Package::LatinPinyinUpper, Package::LatinPinyinLower, Package::GreekCaps,
        Package::GreekLowerBase, Package::GreekMonotonicMarksUpper, Package::GreekMonotonicMarksLower, Package::CyrillicRuCaps,
        Package::CyrillicRuLower, Package::CyrillicBgCaps, Package::CyrillicBgLower, Package::CyrillicUkCaps,
        Package::CyrillicUkLower, Package::CyrillicBeCaps, Package::CyrillicBeLower, Package::CyrillicSrMeCaps,
        Package::CyrillicSrMeLower, Package::CyrillicMkCaps, Package::CyrillicMkLower, Package::ArmenianCaps,
        Package::ArmenianLower, Package::GeorgianMkhedruli, Package::GeorgianMtavruli, Package::Hebrew,
        Package::CherokeeUpper, Package::CherokeeSmall, Package::InuktitutCore, Package::CreeCore,
        Package::Hiragana, Package::Katakana, Package::HangulJamoL, Package::HangulJamoV,
        Package::HangulJamoT, Package::HangulJamoAll, Package::EthiopicCore, Package::ArabicCore,
        Package::PersianUrduExtras, Package::SyriacCore, Package::ThaanaCore, Package::DevanagariCore,
        Package::BengaliCore, Package::GurmukhiCore, Package::GujaratiCore, Package::OdiaCore,
        Package::TamilCore, Package::TeluguCore, Package::KannadaCore, Package::MalayalamCore,
        Package::SinhalaCore, Package::ThaiCore, Package::LaoCore, Package::TibetanCore,
        Package::MyanmarCore, Package::KhmerCore, Package::LatinSalishUpper, Package::LatinSalishLower,
        Package::LatinExtendedOgonekUpper, Package::LatinExtendedOgonekLower, Package::RomanianLegacyCedillaUpper, Package::RomanianLegacyCedillaLower,
        Package::LatinAfricanUpper, Package::LatinAfricanLower, Package::YorubaUpper, Package::YorubaLower,
        Package::KikuyuUpper, Package::KikuyuLower, Package::EsperantoUpper, Package::EsperantoLower,
        Package::VietnameseUpper, Package::VietnameseLower, Package::YorubaTonesUpper, Package::YorubaTonesLower,
        Package::DigitsAscii, Package::DigitsArabicIndic, Package::DigitsExtendedArabicIndic, Package::DigitsDevanagari,
        Package::DigitsBengali, Package::DigitsGurmukhi, Package::DigitsGujarati, Package::DigitsOdia,
        Package::DigitsTamil, Package::DigitsTelugu, Package::DigitsKannada, Package::DigitsMalayalam,
        Package::DigitsSinhala, Package::DigitsThai, Package::DigitsLao, Package::DigitsTibetan,
        Package::DigitsMyanmar, Package::DigitsKhmer, Package::DigitsSuperscriptCore, Package::DigitsSubscriptCore,
        Package::MathBasicArithmetic, Package::MathFullwidthBasicEastAsian, Package::MathArabicNumericSymbols, Package::MathTypographicVariants,
        Package::MathAlgebraCore, Package::MathSetRelations, Package::MathCalculusCore, Package::MathLogicCore,
        Package::MathArrowsBasic, Package::MathArrowsExtended, Package::MathDelimitersExtended, Package::MathOperatorsExtended,
        Package::MathDoubleStruckSets, Package::PunctuationWordBasicLatin, Package::PunctuationUnderscoreBasic, Package::PunctuationUnderscoreExtended,
        Package::PunctuationSentenceBasicLatin, Package::PunctuationSpanishExtras, Package::PunctuationGreekAnoTeleia, Package::PunctuationHebrewCore,
        Package::PunctuationArabicCore, Package::PunctuationDevanagariCore, Package::PunctuationJapaneseCore, Package::PunctuationThaiCore,
        Package::PunctuationLaoCore, Package::PunctuationTibetanCore, Package::PunctuationMyanmarCore, Package::PunctuationKhmerCore,
        Package::PunctuationDashesBasic, Package::PunctuationDashesExtended, Package::PunctuationDashesAll, Package::SymbolsAstroBasic,
        Package::LatinSmallCapsExtended, Package::BraillePatterns, Package::SymbolsMusicBasic, Package::PunctuationCurrencyExtended,
        Package::PunctuationLetterlikeSymbols, Package::PunctuationPrimesBasic, Package::HawaiianCoreUpper, Package::HawaiianCoreLower,
        Package::HawaiianOkina, Package::PunctuationSectionsBasic,
    ]
}

/// A named selection of packages with option overrides.
#[derive(Clone, Debug)]
pub struct Preset {
    pub name: &'static str,
    pub packages: &'static [Package],
    pub drop_diacritics: Option<bool>,
    pub keep_ligatures: Option<bool>,
    /// `"CapsOnly"`, `"UpperLower"` or `"LowerOnly"`.
    pub case_mode: Option<&'static str>,
    /// `"SS"` or `"ẞ"`.
    pub german_sharp_s_uppercase: Option<&'static str>,
}

/// The built-in presets, in catalogue order.
pub open spec fn preset_table() -> Seq<Preset> {
    seq![
        Preset {
            name: "english_caps",
            packages: &[Package::LatinAsciiUpper],
            drop_diacritics: Some(true),
            keep_ligatures: Some(false),
            case_mode: Some("CapsOnly"),
            german_sharp_s_uppercase: Some("SS"),
        },
        Preset {
            name: "spanish_caps_min",
            packages: &[Package::LatinAsciiUpper, Package::SpanishCoreUpper],
            drop_diacritics: Some(true),
            keep_ligatures: Some(false),
            case_mode: Some("CapsOnly"),
            german_sharp_s_uppercase: Some("SS"),
        },
        Preset {
            name: "pan_western_caps",
            packages: &[Package::LatinAsciiUpper, Package::SpanishCoreUpper, Package::FrenchAccentsUpper, Package::GermanExtrasUpper, Package::ItalianCoreUpper, Package::PortugueseCoreUpper, Package::DanishNorwegianUpper, Package::SwedishUpper, Package::IcelandicUpper, Package::LithuanianUpper, Package::LatvianUpper, Package::CzechUpper, Package::SlovakUpper, Package::SloveneBCSUpper, Package::HungarianUpper, Package::PolishUpper, Package::RomanianUpper, Package::WelshUpper, Package::GaelicUpper, Package::MalteseUpper, Package::TurkishAzeriUpper, Package::GreenlandicUpper],
            drop_diacritics: Some(false),
            keep_ligatures: Some(false),
            case_mode: Some("CapsOnly"),
            german_sharp_s_uppercase: Some("ẞ"),
        },
        Preset {
            name: "greek_monotonic_full",
            packages: &[Package::GreekCaps, Package::GreekLowerBase, Package::GreekMonotonicMarksUpper, Package::GreekMonotonicMarksLower],
            drop_diacritics: Some(false),
            keep_ligatures: Some(false),
            case_mode: Some("UpperLower"),
            german_sharp_s_uppercase: None,
        },
        Preset {
            name: "cyrillic_ru_full",
            packages: &[Package::CyrillicRuCaps, Package::CyrillicRuLower],
            drop_diacritics: Some(false),
            keep_ligatures: Some(false),
            case_mode: Some("UpperLower"),
            german_sharp_s_uppercase: None,
        },
        Preset {
            name: "cyrillic_pan_slavic",
            packages: &[Package::CyrillicRuCaps, Package::CyrillicRuLower, Package::CyrillicUkCaps, Package::CyrillicUkLower, Package::CyrillicBeCaps, Package::CyrillicBeLower, Package::CyrillicSrMeCaps, Package::CyrillicSrMeLower, Package::CyrillicMkCaps, Package::CyrillicMkLower],
            drop_diacritics: Some(false),
            keep_ligatures: Some(false),
            case_mode: Some("UpperLower"),
            german_sharp_s_uppercase: None,
        },
        Preset {
            name: "hebrew",
            packages: &[Package::Hebrew],
            drop_diacritics: Some(false),
            keep_ligatures: Some(false),
            case_mode: Some("CapsOnly"),
            german_sharp_s_uppercase: None,
        },
        Preset {
            name: "georgian_mkhedruli",
            packages: &[Package::GeorgianMkhedruli],
            drop_diacritics: Some(false),
            keep_ligatures: Some(false),
            case_mode: Some("CapsOnly"),
            german_sharp_s_uppercase: None,
        },
        Preset {
            name: "cherokee",
            packages: &[Package::CherokeeUpper, Package::CherokeeSmall],
            drop_diacritics: Some(false),
            keep_ligatures: Some(false),
            case_mode: Some("UpperLower"),
            german_sharp_s_uppercase: None,
        },
        Preset {
            name: "kana_full",
            packages: &[Package::Hiragana, Package::Katakana],
            drop_diacritics: Some(false),
            keep_ligatures: Some(false),
            case_mode: Some("CapsOnly"),
            german_sharp_s_uppercase: None,
        },
        Preset {
            name: "latin_signage_caps_strict_ascii",
            packages: &[Package::LatinAsciiUpper],
            drop_diacritics: Some(true),
            keep_ligatures: Some(false),
            case_mode: Some("CapsOnly"),
            german_sharp_s_uppercase: Some("SS"),
        },
        Preset {
            name: "latin_signage_caps_ascii_plus_common_digraphs",
            packages: &[Package::LatinAsciiUpper, Package::LatinDigraphsCommon],
            drop_diacritics: Some(true),
            keep_ligatures: Some(false),
            case_mode: Some("CapsOnly"),
            german_sharp_s_uppercase: Some("SS"),
        },
        Preset {
            name: "latin_caps_pan_western_with_accents",
            packages: &[Package::LatinAsciiUpper, Package::SpanishCoreUpper, Package::FrenchAccentsUpper, Package::GermanExtrasUpper, Package::ItalianCoreUpper, Package::PortugueseCoreUpper, Package::DanishNorwegianUpper, Package::SwedishUpper, Package::IcelandicUpper, Package::LithuanianUpper, Package::LatvianUpper, Package::CzechUpper, Package::SlovakUpper, Package::SloveneBCSUpper, Package::HungarianUpper, Package::PolishUpper, Package::RomanianUpper, Package::WelshUpper, Package::GaelicUpper, Package::MalteseUpper, Package::TurkishAzeriUpper, Package::GreenlandicUpper],
            drop_diacritics: Some(false),
            keep_ligatures: Some(false),
            case_mode: Some("CapsOnly"),
            german_sharp_s_uppercase: Some("ẞ"),
        },
        Preset {
            name: "latin_upperlower_pan_western_core_no_ligatures",
            packages: &[Package::LatinAsciiUpper, Package::LatinAsciiLower, Package::SpanishCoreUpper, Package::SpanishCoreLower, Package::FrenchAccentsUpper, Package::FrenchAccentsLower, Package::GermanExtrasUpper, Package::GermanExtrasLower, Package::ItalianCoreUpper, Package::ItalianCoreLower, Package::PortugueseCoreUpper, Package::PortugueseCoreLower, Package::DanishNorwegianUpper, Package::DanishNorwegianLower, Package::SwedishUpper, Package::SwedishLower, Package::IcelandicUpper, Package::IcelandicLower, Package::LithuanianUpper, Package::LithuanianLower, Package::LatvianUpper, Package::LatvianLower, Package::CzechUpper, Package::CzechLower, Package::SlovakUpper, Package::SlovakLower, Package::SloveneBCSUpper, Package::SloveneBCSLower, Package::HungarianUpper, Package::HungarianLower, Package::PolishUpper, Package::PolishLower, Package::RomanianUpper, Package::RomanianLower, Package::WelshUpper, Package::WelshLower, Package::GaelicUpper, Package::GaelicLower, Package::MalteseUpper, Package::MalteseLower, Package::TurkishAzeriUpper, Package::TurkishAzeriLower, Package::GreenlandicUpper, Package::GreenlandicLower],
            drop_diacritics: Some(false),
            keep_ligatures: Some(false),
            case_mode: Some("UpperLower"),
            german_sharp_s_uppercase: Some("ẞ"),
        },
        Preset {
            name: "latin_upperlower_pan_western_core_plus_ligatures",
            packages: &[Package::LatinAsciiUpper, Package::LatinAsciiLower, Package::SpanishCoreUpper, Package::SpanishCoreLower, Package::FrenchAccentsUpper, Package::FrenchAccentsLower, Package::GermanExtrasUpper, Package::GermanExtrasLower, Package::ItalianCoreUpper, Package::ItalianCoreLower, Package::PortugueseCoreUpper, Package::PortugueseCoreLower, Package::DanishNorwegianUpper, Package::DanishNorwegianLower, Package::SwedishUpper, Package::SwedishLower, Package::IcelandicUpper, Package::IcelandicLower, Package::LithuanianUpper, Package::LithuanianLower, Package::LatvianUpper, Package::LatvianLower, Package::CzechUpper, Package::CzechLower, Package::SlovakUpper, Package::SlovakLower, Package::SloveneBCSUpper, Package::SloveneBCSLower, Package::HungarianUpper, Package::HungarianLower, Package::PolishUpper, Package::PolishLower, Package::RomanianUpper, Package::RomanianLower, Package::WelshUpper, Package::WelshLower, Package::GaelicUpper, Package::GaelicLower, Package::MalteseUpper, Package::MalteseLower, Package::TurkishAzeriUpper, Package::TurkishAzeriLower, Package::GreenlandicUpper, Package::GreenlandicLower, Package::LatinLigaturesUpper, Package::LatinLigaturesLower],
            drop_diacritics: Some(false),
            keep_ligatures: Some(true),
            case_mode: Some("UpperLower"),
            german_sharp_s_uppercase: Some("ẞ"),
        },
        Preset {
            name: "spanish_caps_with_diacritics",
            packages: &[Package::LatinAsciiUpper, Package::SpanishCoreUpper, Package::PortugueseCoreUpper, Package::GermanExtrasUpper],
            drop_diacritics: Some(false),
            keep_ligatures: Some(false),
            case_mode: Some("CapsOnly"),
            german_sharp_s_uppercase: Some("SS"),
        },
        Preset {
            name: "spanish_upperlower_full_with_diacritics",
            packages: &[Package::LatinAsciiUpper, Package::LatinAsciiLower, Package::SpanishCoreUpper, Package::SpanishCoreLower, Package::PortugueseCoreUpper, Package::PortugueseCoreLower, Package::GermanExtrasUpper, Package::GermanExtrasLower],
            drop_diacritics: Some(false),
            keep_ligatures: Some(false),
            case_mode: Some("UpperLower"),
            german_sharp_s_uppercase: Some("SS"),
        },
        Preset {
            name: "french_signage_caps_drop_accents",
            packages: &[Package::LatinAsciiUpper],
            drop_diacritics: Some(true),
            keep_ligatures: Some(false),
            case_mode: Some("CapsOnly"),
            german_sharp_s_uppercase: Some("SS"),
        },
        Preset {
            name: "french_caps_with_accents_no_ligatures",
            packages: &[Package::LatinAsciiUpper, Package::FrenchAccentsUpper],
            drop_diacritics: Some(false),
            keep_ligatures: Some(false),
            case_mode: Some("CapsOnly"),
            german_sharp_s_uppercase: Some("ẞ"),
        },
        Preset {
            name: "french_upperlower_full_with_accents_and_ligatures",
            packages: &[Package::LatinAsciiUpper, Package::LatinAsciiLower, Package::FrenchAccentsUpper, Package::FrenchAccentsLower, Package::LatinLigaturesUpper, Package::LatinLigaturesLower],
            drop_diacritics: Some(false),
            keep_ligatures: Some(true),
            case_mode: Some("UpperLower"),
            german_sharp_s_uppercase: Some("ẞ"),
        },
        Preset {
            name: "german_signage_caps_transliterated",
            packages: &[Package::LatinAsciiUpper],
            drop_diacritics: Some(true),
            keep_ligatures: Some(false),
            case_mode: Some("CapsOnly"),
            german_sharp_s_uppercase: Some("SS"),
        },
        Preset {
            name: "german_caps_with_umlauts_and_eszett",
            packages: &[Package::LatinAsciiUpper, Package::GermanExtrasUpper],
            drop_diacritics: Some(false),
            keep_ligatures: Some(false),
            case_mode: Some("CapsOnly"),
            german_sharp_s_uppercase: Some("ẞ"),
        },
        Preset {
            name: "german_upperlower_full_with_umlauts_and_eszett",
            packages: &[Package::LatinAsciiUpper, Package::LatinAsciiLower, Package::GermanExtrasUpper, Package::GermanExtrasLower],
            drop_diacritics: Some(false),
            keep_ligatures: Some(false),
            case_mode: Some("UpperLower"),
            german_sharp_s_uppercase: Some("ẞ"),
        },
        Preset {
            name: "italian_signage_caps_drop_accents",
            packages: &[Package::LatinAsciiUpper],
            drop_diacritics: Some(true),
            keep_ligatures: Some(false),
            case_mode: Some("CapsOnly"),
            german_sharp_s_uppercase: Some("SS"),
        },
        Preset {
            name: "italian_caps_with_accents",
            packages: &[Package::LatinAsciiUpper, Package::ItalianCoreUpper],
            drop_diacritics: Some(false),
            keep_ligatures: Some(false),
            case_mode: Some("CapsOnly"),
            german_sharp_s_uppercase: Some("SS"),
        },
        Preset {
            name: "italian_upperlower_full_with_accents",
            packages: &[Package::LatinAsciiUpper, Package::LatinAsciiLower, Package::ItalianCoreUpper, Package::ItalianCoreLower],
            drop_diacritics: Some(false),
            keep_ligatures: Some(false),
            case_mode: Some("UpperLower"),
            german_sharp_s_uppercase: Some("SS"),
        },
        Preset {
            name: "portuguese_signage_caps_drop_accents",
            packages: &[Package::LatinAsciiUpper],
            drop_diacritics: Some(true),
            keep_ligatures: Some(false),
            case_mode: Some("CapsOnly"),
            german_sharp_s_uppercase: Some("SS"),
        },
        Preset {
            name: "portuguese_caps_with_accents",
            packages: &[Package::LatinAsciiUpper, Package::PortugueseCoreUpper],
            drop_diacritics: Some(false),
            keep_ligatures: Some(false),
            case_mode: Some("CapsOnly"),
            german_sharp_s_uppercase: Some("SS"),
        },
        Preset {
            name: "portuguese_upperlower_full_with_accents",
            packages: &[Package::LatinAsciiUpper, Package::LatinAsciiLower, Package::PortugueseCoreUpper, Package::PortugueseCoreLower],
            drop_diacritics: Some(false),
            keep_ligatures: Some(false),
            case_mode: Some("UpperLower"),
            german_sharp_s_uppercase: Some("SS"),
        },
        Preset {
            name: "danish_norwegian_caps_with_æøå",
            packages: &[Package::LatinAsciiUpper, Package::DanishNorwegianUpper],
            drop_diacritics: Some(false),
            keep_ligatures: Some(false),
            case_mode: Some("CapsOnly"),
            german_sharp_s_uppercase: Some("SS"),
        },
        Preset {
            name: "danish_norwegian_upperlower_full",
            packages: &[Package::LatinAsciiUpper, Package::LatinAsciiLower, Package::DanishNorwegianUpper, Package::DanishNorwegianLower],
            drop_diacritics: Some(false),
            keep_ligatures: Some(false),
            case_mode: Some("UpperLower"),
            german_sharp_s_uppercase: Some("SS"),
        },
        Preset {
            name: "swedish_caps_with_åäö",
            packages: &[Package::LatinAsciiUpper, Package::SwedishUpper],
            drop_diacritics: Some(false),
            keep_ligatures: Some(false),
            case_mode: Some("CapsOnly"),
            german_sharp_s_uppercase: Some("SS"),
        },
        Preset {
            name: "swedish_upperlower_full",
            packages: &[Package::LatinAsciiUpper, Package::LatinAsciiLower, Package::SwedishUpper, Package::SwedishLower],
            drop_diacritics: Some(false),
            keep_ligatures: Some(false),
            case_mode: Some("UpperLower"),
            german_sharp_s_uppercase: Some("SS"),
        },
        Preset {
            name: "icelandic_caps_core",
            packages: &[Package::LatinAsciiUpper, Package::IcelandicUpper],
            drop_diacritics: Some(false),
            keep_ligatures: Some(false),
            case_mode: Some("CapsOnly"),
            german_sharp_s_uppercase: Some("SS"),
        },
        Preset {
            name: "icelandic_upperlower_full",
            packages: &[Package::LatinAsciiUpper, Package::LatinAsciiLower, Package::IcelandicUpper, Package::IcelandicLower],
            drop_diacritics: Some(false),
            keep_ligatures: Some(false),
            case_mode: Some("UpperLower"),
            german_sharp_s_uppercase: Some("SS"),
        },
        Preset {
            name: "lithuanian_upperlower_full",
            packages: &[Package::LatinAsciiUpper, Package::LatinAsciiLower, Package::LithuanianUpper, Package::LithuanianLower],
            drop_diacritics: Some(false),
            keep_ligatures: Some(false),
            case_mode: Some("UpperLower"),
            german_sharp_s_uppercase: Some("SS"),
        },
        Preset {
            name: "latvian_upperlower_full",
            packages: &[Package::LatinAsciiUpper, Package::LatinAsciiLower, Package::LatvianUpper, Package::LatvianLower],
            drop_diacritics: Some(false),
            keep_ligatures: Some(false),
            case_mode: Some("UpperLower"),
            german_sharp_s_uppercase: Some("SS"),
        },
        Preset {
            name: "czech_upperlower_full",
            packages: &[Package::LatinAsciiUpper, Package::LatinAsciiLower, Package::CzechUpper, Package::CzechLower],
            drop_diacritics: Some(false),
            keep_ligatures: Some(false),
            case_mode: Some("UpperLower"),
            german_sharp_s_uppercase: Some("SS"),
        },
        Preset {
            name: "slovak_upperlower_full",
            packages: &[Package::LatinAsciiUpper, Package::LatinAsciiLower, Package::SlovakUpper, Package::SlovakLower],
            drop_diacritics: Some(false),
            keep_ligatures: Some(false),
            case_mode: Some("UpperLower"),
            german_sharp_s_uppercase: Some("SS"),
        },
        Preset {
            name: "slovene_bcs_upperlower_full",
            packages: &[Package::LatinAsciiUpper, Package::LatinAsciiLower, Package::SloveneBCSUpper, Package::SloveneBCSLower],
            drop_diacritics: Some(false),
            keep_ligatures: Some(false),
            case_mode: Some("UpperLower"),
            german_sharp_s_uppercase: Some("SS"),
        },
        Preset {
            name: "hungarian_upperlower_full",
            packages: &[Package::LatinAsciiUpper, Package::LatinAsciiLower, Package::HungarianUpper, Package::HungarianLower],
            drop_diacritics: Some(false),
            keep_ligatures: Some(false),
            case_mode: Some("UpperLower"),
            german_sharp_s_uppercase: Some("SS"),
        },
        Preset {
            name: "polish_upperlower_full",
            packages: &[Package::LatinAsciiUpper, Package::LatinAsciiLower, Package::PolishUpper, Package::PolishLower],
            drop_diacritics: Some(false),
            keep_ligatures: Some(false),
            case_mode: Some("UpperLower"),
            german_sharp_s_uppercase: Some("SS"),
        },
        Preset {
            name: "romanian_upperlower_full_modern",
            packages: &[Package::LatinAsciiUpper, Package::LatinAsciiLower, Package::RomanianUpper, Package::RomanianLower],
            drop_diacritics: Some(false),
            keep_ligatures: Some(false),
            case_mode: Some("UpperLower"),
            german_sharp_s_uppercase: Some("SS"),
        },
        Preset {
            name: "welsh_upperlower_core",
            packages: &[Package::LatinAsciiUpper, Package::LatinAsciiLower, Package::WelshUpper, Package::WelshLower],
            drop_diacritics: Some(false),
            keep_ligatures: Some(false),
            case_mode: Some("UpperLower"),
            german_sharp_s_uppercase: Some("SS"),
        },
        Preset {
            name: "gaelic_upperlower_core",
            packages: &[Package::LatinAsciiUpper, Package::LatinAsciiLower, Package::GaelicUpper, Package::GaelicLower],
            drop_diacritics: Some(false),
            keep_ligatures: Some(false),
            case_mode: Some("UpperLower"),
            german_sharp_s_uppercase: Some("SS"),
        },
        Preset {
            name: "maltese_upperlower_core",
            packages: &[Package::LatinAsciiUpper, Package::LatinAsciiLower, Package::MalteseUpper, Package::MalteseLower],
            drop_diacritics: Some(false),
            keep_ligatures: Some(false),
            case_mode: Some("UpperLower"),
            german_sharp_s_uppercase: Some("SS"),
        },
        Preset {
            name: "turkish_azeri_upperlower_core",
            packages: &[Package::LatinAsciiUpper, Package::LatinAsciiLower, Package::TurkishAzeriUpper, Package::TurkishAzeriLower],
            drop_diacritics: Some(false),
            keep_ligatures: Some(false),
            case_mode: Some("UpperLower"),
            german_sharp_s_uppercase: Some("SS"),
        },
        Preset {
            name: "greenlandic_upperlower_core",
            packages: &[Package::LatinAsciiUpper, Package::LatinAsciiLower, Package::GreenlandicUpper, Package::GreenlandicLower],
            drop_diacritics: Some(false),
            keep_ligatures: Some(false),
            case_mode: Some("UpperLower"),
            german_sharp_s_uppercase: Some("SS"),
        },
        Preset {
            name: "vietnamese_signage_caps_drop_accents",
            packages: &[Package::LatinAsciiUpper],
            drop_diacritics: Some(true),
            keep_ligatures: Some(false),
            case_mode: Some("CapsOnly"),
            german_sharp_s_uppercase: Some("SS"),
        },
        Preset {
            name: "vietnamese_upperlower_full",
            packages: &[Package::VietnameseUpper, Package::VietnameseLower],
            drop_diacritics: Some(false),
            keep_ligatures: Some(false),
            case_mode: Some("UpperLower"),
            german_sharp_s_uppercase: Some("SS"),
        },
        Preset {
            name: "pinyin_upperlower_tone_vowels",
            packages: &[Package::LatinAsciiUpper, Package::LatinAsciiLower, Package::LatinPinyinUpper, Package::LatinPinyinLower],
            drop_diacritics: Some(false),
            keep_ligatures: Some(false),
            case_mode: Some("UpperLower"),
            german_sharp_s_uppercase: Some("SS"),
        },
        Preset {
            name: "ipa_letters_core_only",
            packages: &[Package::LatinIpaCore],
            drop_diacritics: Some(false),
            keep_ligatures: Some(false),
            case_mode: Some("LowerOnly"),
            german_sharp_s_uppercase: None,
        },
        Preset {
            name: "ipa_core_plus_modifiers",
            packages: &[Package::LatinIpaCore, Package::LatinIpaModifiers],
            drop_diacritics: Some(false),
            keep_ligatures: Some(false),
            case_mode: Some("LowerOnly"),
            german_sharp_s_uppercase: None,
        },
        Preset {
            name: "ipa_africanist_extended_with_clicks",
            packages: &[Package::LatinIpaCore, Package::LatinIpaModifiers, Package::LatinAfricanLower, Package::LatinAfricanUpper, Package::LatinClicks],
            drop_diacritics: Some(false),
            keep_ligatures: Some(false),
            case_mode: Some("UpperLower"),
            german_sharp_s_uppercase: None,
        },
        Preset {
            name: "yoruba_upperlower_core",
            packages: &[Package::LatinAsciiUpper, Package::LatinAsciiLower, Package::YorubaUpper, Package::YorubaLower],
            drop_diacritics: Some(false),
            keep_ligatures: Some(false),
            case_mode: Some("UpperLower"),
            german_sharp_s_uppercase: Some("SS"),
        },
        Preset {
            name: "yoruba_upperlower_with_tone_sequences",
            packages: &[Package::LatinAsciiUpper, Package::LatinAsciiLower, Package::YorubaUpper, Package::YorubaLower, Package::YorubaTonesUpper, Package::YorubaTonesLower],
            drop_diacritics: Some(false),
            keep_ligatures: Some(false),
            case_mode: Some("UpperLower"),
            german_sharp_s_uppercase: Some("SS"),
        },
        Preset {
            name: "kikuyu_upperlower_core",
            packages: &[Package::LatinAsciiUpper, Package::LatinAsciiLower, Package::KikuyuUpper, Package::KikuyuLower],
            drop_diacritics: Some(false),
            keep_ligatures: Some(false),
            case_mode: Some("UpperLower"),
            german_sharp_s_uppercase: Some("SS"),
        },
        Preset {
            name: "salish_upperlower_core",
            packages: &[Package::LatinAsciiUpper, Package::LatinAsciiLower, Package::LatinSalishUpper, Package::LatinSalishLower],
            drop_diacritics: Some(false),
            keep_ligatures: Some(false),
            case_mode: Some("UpperLower"),
            german_sharp_s_uppercase: Some("SS"),
        },
        Preset {
            name: "esperanto_upperlower_core",
            packages: &[Package::LatinAsciiUpper, Package::LatinAsciiLower, Package::EsperantoUpper, Package::EsperantoLower],
            drop_diacritics: Some(false),
            keep_ligatures: Some(false),
            case_mode: Some("UpperLower"),
            german_sharp_s_uppercase: Some("SS"),
        },
        Preset {
            name: "greek_caps_no_marks",
            packages: &[Package::GreekCaps],
            drop_diacritics: Some(true),
            keep_ligatures: Some(false),
            case_mode: Some("CapsOnly"),
            german_sharp_s_uppercase: None,
        },
        Preset {
            name: "greek_caps_with_monotonic_marks",
            packages: &[Package::GreekCaps, Package::GreekMonotonicMarksUpper],
            drop_diacritics: Some(false),
            keep_ligatures: Some(false),
            case_mode: Some("CapsOnly"),
            german_sharp_s_uppercase: None,
        },
        Preset {
            name: "cyrillic_russian_caps_signage",
            packages: &[Package::CyrillicRuCaps],
            drop_diacritics: Some(false),
            keep_ligatures: Some(false),
            case_mode: Some("CapsOnly"),
            german_sharp_s_uppercase: None,
        },
        Preset {
            name: "cyrillic_russian_upperlower_full",
            packages: &[Package::CyrillicRuCaps, Package::CyrillicRuLower],
            drop_diacritics: Some(false),
            keep_ligatures: Some(false),
            case_mode: Some("UpperLower"),
            german_sharp_s_uppercase: None,
        },
        Preset {
            name: "cyrillic_ukrainian_upperlower_full",
            packages: &[Package::CyrillicUkCaps, Package::CyrillicUkLower],
            drop_diacritics: Some(false),
            keep_ligatures: Some(false),
            case_mode: Some("UpperLower"),
            german_sharp_s_uppercase: None,
        },
        Preset {
            name: "cyrillic_belarusian_upperlower_full",
            packages: &[Package::CyrillicBeCaps, Package::CyrillicBeLower],
            drop_diacritics: Some(false),
            keep_ligatures: Some(false),
            case_mode: Some("UpperLower"),
            german_sharp_s_uppercase: None,
        },
        Preset {
            name: "cyrillic_serbian_montenegrin_upperlower_full",
            packages: &[Package::CyrillicSrMeCaps, Package::CyrillicSrMeLower],
            drop_diacritics: Some(false),
            keep_ligatures: Some(false),
            case_mode: Some("UpperLower"),
            german_sharp_s_uppercase: None,
        },
        Preset {
            name: "cyrillic_macedonian_upperlower_full",
            packages: &[Package::CyrillicMkCaps, Package::CyrillicMkLower],
            drop_diacritics: Some(false),
            keep_ligatures: Some(false),
            case_mode: Some("UpperLower"),
            german_sharp_s_uppercase: None,
        },
        Preset {
            name: "cyrillic_bulgarian_upperlower_full",
            packages: &[Package::CyrillicRuCaps, Package::CyrillicRuLower],
            drop_diacritics: Some(false),
            keep_ligatures: Some(false),
            case_mode: Some("UpperLower"),
            german_sharp_s_uppercase: None,
        },
        Preset {
            name: "arabic_core_basic",
            packages: &[Package::ArabicCore],
            drop_diacritics: Some(false),
            keep_ligatures: Some(false),
            case_mode: Some("CapsOnly"),
            german_sharp_s_uppercase: None,
        },
        Preset {
            name: "persian_urdu_core",
            packages: &[Package::ArabicCore, Package::PersianUrduExtras],
            drop_diacritics: Some(false),
            keep_ligatures: Some(false),
            case_mode: Some("CapsOnly"),
            german_sharp_s_uppercase: None,
        },
        Preset {
            name: "hebrew_basic_unicameral",
            packages: &[Package::Hebrew],
            drop_diacritics: Some(false),
            keep_ligatures: Some(false),
            case_mode: Some("CapsOnly"),
            german_sharp_s_uppercase: None,
        },
        Preset {
            name: "syriac_core_basic",
            packages: &[Package::SyriacCore],
            drop_diacritics: Some(false),
            keep_ligatures: Some(false),
            case_mode: Some("CapsOnly"),
            german_sharp_s_uppercase: None,
        },
        Preset {
            name: "thaana_core_basic",
            packages: &[Package::ThaanaCore],
            drop_diacritics: Some(false),
            keep_ligatures: Some(false),
            case_mode: Some("CapsOnly"),
            german_sharp_s_uppercase: None,
        },
        Preset {
            name: "devanagari_core_basic",
            packages: &[Package::DevanagariCore],
            drop_diacritics: Some(false),
            keep_ligatures: Some(false),
            case_mode: Some("CapsOnly"),
            german_sharp_s_uppercase: None,
        },
        Preset {
            name: "bengali_core_basic",
            packages: &[Package::BengaliCore],
            drop_diacritics: Some(false),
            keep_ligatures: Some(false),
            case_mode: Some("CapsOnly"),
            german_sharp_s_uppercase: None,
        },
        Preset {
            name: "gurmukhi_core_basic",
            packages: &[Package::GurmukhiCore],
            drop_diacritics: Some(false),
            keep_ligatures: Some(false),
            case_mode: Some("CapsOnly"),
            german_sharp_s_uppercase: None,
        },
        Preset {
            name: "gujarati_core_basic",
            packages: &[Package::GujaratiCore],
            drop_diacritics: Some(false),
            keep_ligatures: Some(false),
            case_mode: Some("CapsOnly"),
            german_sharp_s_uppercase: None,
        },
        Preset {
            name: "odia_core_basic",
            packages: &[Package::OdiaCore],
            drop_diacritics: Some(false),
            keep_ligatures: Some(false),
            case_mode: Some("CapsOnly"),
            german_sharp_s_uppercase: None,
        },
        Preset {
            name: "tamil_core_basic",
            packages: &[Package::TamilCore],
            drop_diacritics: Some(false),
            keep_ligatures: Some(false),
            case_mode: Some("CapsOnly"),
            german_sharp_s_uppercase: None,
        },
        Preset {
            name: "telugu_core_basic",
            packages: &[Package::TeluguCore],
            drop_diacritics: Some(false),
            keep_ligatures: Some(false),
            case_mode: Some("CapsOnly"),
            german_sharp_s_uppercase: None,
        },
        Preset {
            name: "kannada_core_basic",
            packages: &[Package::KannadaCore],
            drop_diacritics: Some(false),
            keep_ligatures: Some(false),
            case_mode: Some("CapsOnly"),
            german_sharp_s_uppercase: None,
        },
        Preset {
            name: "malayalam_core_basic",
            packages: &[Package::MalayalamCore],
            drop_diacritics: Some(false),
            keep_ligatures: Some(false),
            case_mode: Some("CapsOnly"),
            german_sharp_s_uppercase: None,
        },
        Preset {
            name: "sinhala_core_basic",
            packages: &[Package::SinhalaCore],
            drop_diacritics: Some(false),
            keep_ligatures: Some(false),
            case_mode: Some("CapsOnly"),
            german_sharp_s_uppercase: None,
        },
        Preset {
            name: "thai_core_basic",
            packages: &[Package::ThaiCore],
            drop_diacritics: Some(false),
            keep_ligatures: Some(false),
            case_mode: Some("CapsOnly"),
            german_sharp_s_uppercase: None,
        },
        Preset {
            name: "lao_core_basic",
            packages: &[Package::LaoCore],
            drop_diacritics: Some(false),
            keep_ligatures: Some(false),
            case_mode: Some("CapsOnly"),
            german_sharp_s_uppercase: None,
        },
        Preset {
            name: "tibetan_core_basic",
            packages: &[Package::TibetanCore],
            drop_diacritics: Some(false),
            keep_ligatures: Some(false),
            case_mode: Some("CapsOnly"),
            german_sharp_s_uppercase: None,
        },
        Preset {
            name: "myanmar_core_basic",
            packages: &[Package::MyanmarCore],
            drop_diacritics: Some(false),
            keep_ligatures: Some(false),
            case_mode: Some("CapsOnly"),
            german_sharp_s_uppercase: None,
        },
        Preset {
            name: "khmer_core_basic",
            packages: &[Package::KhmerCore],
            drop_diacritics: Some(false),
            keep_ligatures: Some(false),
            case_mode: Some("CapsOnly"),
            german_sharp_s_uppercase: None,
        },
        Preset {
            name: "hiragana_only",
            packages: &[Package::Hiragana],
            drop_diacritics: Some(false),
            keep_ligatures: Some(false),
            case_mode: Some("CapsOnly"),
            german_sharp_s_uppercase: None,
        },
        Preset {
            name: "katakana_only",
            packages: &[Package::Katakana],
            drop_diacritics: Some(false),
            keep_ligatures: Some(false),
            case_mode: Some("CapsOnly"),
            german_sharp_s_uppercase: None,
        },
        Preset {
            name: "hangul_jamo_all",
            packages: &[Package::HangulJamoAll],
            drop_diacritics: Some(false),
            keep_ligatures: Some(false),
            case_mode: Some("CapsOnly"),
            german_sharp_s_uppercase: None,
        },
        Preset {
            name: "ethiopic_core_basic",
            packages: &[Package::EthiopicCore],
            drop_diacritics: Some(false),
            keep_ligatures: Some(false),
            case_mode: Some("CapsOnly"),
            german_sharp_s_uppercase: None,
        },
        Preset {
            name: "inuktitut_core_basic",
            packages: &[Package::InuktitutCore],
            drop_diacritics: Some(false),
            keep_ligatures: Some(false),
            case_mode: Some("CapsOnly"),
            german_sharp_s_uppercase: None,
        },
        Preset {
            name: "cree_core_basic",
            packages: &[Package::CreeCore],
            drop_diacritics: Some(false),
            keep_ligatures: Some(false),
            case_mode: Some("CapsOnly"),
            german_sharp_s_uppercase: None,
        },
        Preset {
            name: "numbers_ascii_only_signage",
            packages: &[Package::DigitsAscii],
            drop_diacritics: Some(false),
            keep_ligatures: Some(false),
            case_mode: Some("CapsOnly"),
            german_sharp_s_uppercase: None,
        },
        Preset {
            name: "numbers_multiscript_common_global",
            packages: &[Package::DigitsAscii, Package::DigitsArabicIndic, Package::DigitsExtendedArabicIndic, Package::DigitsDevanagari, Package::DigitsThai],
            drop_diacritics: Some(false),
            keep_ligatures: Some(false),
            case_mode: Some("CapsOnly"),
            german_sharp_s_uppercase: None,
        },
        Preset {
            name: "numbers_multiscript_south_asia",
            packages: &[Package::DigitsAscii, Package::DigitsDevanagari, Package::DigitsBengali, Package::DigitsGurmukhi, Package::DigitsGujarati, Package::DigitsOdia, Package::DigitsTamil, Package::DigitsTelugu, Package::DigitsKannada, Package::DigitsMalayalam, Package::DigitsSinhala],
            drop_diacritics: Some(false),
            keep_ligatures: Some(false),
            case_mode: Some("CapsOnly"),
            german_sharp_s_uppercase: None,
        },
        Preset {
            name: "math_signage_minimal",
            packages: &[Package::MathBasicArithmetic],
            drop_diacritics: Some(false),
            keep_ligatures: Some(false),
            case_mode: Some("CapsOnly"),
            german_sharp_s_uppercase: None,
        },
        Preset {
            name: "math_algebra_full",
            packages: &[Package::MathBasicArithmetic, Package::MathAlgebraCore, Package::MathSetRelations, Package::MathTypographicVariants],
            drop_diacritics: Some(false),
            keep_ligatures: Some(true),
            case_mode: Some("CapsOnly"),
            german_sharp_s_uppercase: None,
        },
        Preset {
            name: "math_advanced",
            packages: &[Package::MathBasicArithmetic, Package::MathAlgebraCore, Package::MathSetRelations, Package::MathCalculusCore, Package::MathLogicCore, Package::MathArrowsBasic, Package::MathTypographicVariants],
            drop_diacritics: Some(false),
            keep_ligatures: Some(true),
            case_mode: Some("CapsOnly"),
            german_sharp_s_uppercase: None,
        },
        Preset {
            name: "math_latex_extended",
            packages: &[Package::MathBasicArithmetic, Package::MathAlgebraCore, Package::MathSetRelations, Package::MathCalculusCore, Package::MathLogicCore, Package::MathArrowsBasic, Package::MathArrowsExtended, Package::MathDelimitersExtended, Package::MathOperatorsExtended, Package::MathDoubleStruckSets, Package::DigitsSuperscriptCore, Package::DigitsSubscriptCore, Package::MathTypographicVariants],
            drop_diacritics: Some(false),
            keep_ligatures: Some(true),
            case_mode: Some("CapsOnly"),
            german_sharp_s_uppercase: None,
        },
        Preset {
            name: "math_context_arabic",
            packages: &[Package::MathBasicArithmetic, Package::MathArabicNumericSymbols, Package::DigitsArabicIndic, Package::DigitsExtendedArabicIndic],
            drop_diacritics: Some(false),
            keep_ligatures: Some(true),
            case_mode: Some("CapsOnly"),
            german_sharp_s_uppercase: None,
        },
        Preset {
            name: "math_fullwidth_east_asian_basic",
            packages: &[Package::MathFullwidthBasicEastAsian, Package::DigitsAscii],
            drop_diacritics: Some(false),
            keep_ligatures: Some(true),
            case_mode: Some("CapsOnly"),
            german_sharp_s_uppercase: None,
        },
        Preset {
            name: "punct_basic_latin_word_sentence",
            packages: &[Package::PunctuationWordBasicLatin, Package::PunctuationSentenceBasicLatin],
            drop_diacritics: Some(false),
            keep_ligatures: Some(false),
            case_mode: Some("CapsOnly"),
            german_sharp_s_uppercase: None,
        },
        Preset {
            name: "punct_language_spanish",
            packages: &[Package::PunctuationWordBasicLatin, Package::PunctuationSentenceBasicLatin, Package::PunctuationSpanishExtras, Package::PunctuationDashesBasic],
            drop_diacritics: Some(false),
            keep_ligatures: Some(false),
            case_mode: Some("CapsOnly"),
            german_sharp_s_uppercase: None,
        },
        Preset {
            name: "punct_language_arabic",
            packages: &[Package::PunctuationArabicCore, Package::PunctuationDashesBasic],
            drop_diacritics: Some(false),
            keep_ligatures: Some(false),
            case_mode: Some("CapsOnly"),
            german_sharp_s_uppercase: None,
        },
        Preset {
            name: "punct_language_devanagari",
            packages: &[Package::PunctuationDevanagariCore, Package::PunctuationDashesBasic],
            drop_diacritics: Some(false),
            keep_ligatures: Some(false),
            case_mode: Some("CapsOnly"),
            german_sharp_s_uppercase: None,
        },
        Preset {
            name: "punct_language_japanese",
            packages: &[Package::PunctuationJapaneseCore, Package::PunctuationDashesBasic],
            drop_diacritics: Some(false),
            keep_ligatures: Some(false),
            case_mode: Some("CapsOnly"),
            german_sharp_s_uppercase: None,
        },
        Preset {
            name: "punct_dashes_minimal_signage",
            packages: &[Package::PunctuationDashesBasic],
            drop_diacritics: Some(false),
            keep_ligatures: Some(false),
            case_mode: Some("CapsOnly"),
            german_sharp_s_uppercase: None,
        },
        Preset {
            name: "punct_dashes_full_editorial",
            packages: &[Package::PunctuationDashesAll],
            drop_diacritics: Some(false),
            keep_ligatures: Some(false),
            case_mode: Some("CapsOnly"),
            german_sharp_s_uppercase: None,
        },
        Preset {
            name: "hawaiian_upperlower_core",
            packages: &[Package::LatinAsciiUpper, Package::LatinAsciiLower, Package::HawaiianCoreUpper, Package::HawaiianCoreLower, Package::HawaiianOkina],
            drop_diacritics: Some(false),
            keep_ligatures: Some(false),
            case_mode: Some("UpperLower"),
            german_sharp_s_uppercase: Some("SS"),
        },
        Preset {
            name: "punct_editorial_basic",
            packages: &[Package::PunctuationSentenceBasicLatin, Package::PunctuationDashesBasic, Package::PunctuationSectionsBasic, Package::PunctuationLetterlikeSymbols],
            drop_diacritics: Some(false),
            keep_ligatures: Some(false),
            case_mode: Some("CapsOnly"),
            german_sharp_s_uppercase: None,
        },
    ]
}

/// The built-in presets, in catalogue order.
pub fn presets() -> (r: &'static [Preset])
    ensures
        r@ == preset_table(),
{
    &[
        Preset {
            name: "english_caps",
            packages: &[Package::LatinAsciiUpper],
            drop_diacritics: Some(true),
            keep_ligatures: Some(false),
            case_mode: Some("CapsOnly"),
            german_sharp_s_uppercase: Some("SS"),
        },
        Preset {
            name: "spanish_caps_min",
            packages: &[Package::LatinAsciiUpper, Package::SpanishCoreUpper],
            drop_diacritics: Some(true),
            keep_ligatures: Some(false),
            case_mode: Some("CapsOnly"),
            german_sharp_s_uppercase: Some("SS"),
        },
        Preset {
            name: "pan_western_caps",
            packages: &[Package::LatinAsciiUpper, Package::SpanishCoreUpper, Package::FrenchAccentsUpper, Package::GermanExtrasUpper, Package::ItalianCoreUpper, Package::PortugueseCoreUpper, Package::DanishNorwegianUpper, Package::SwedishUpper, Package::IcelandicUpper, Package::LithuanianUpper, Package::LatvianUpper, Package::CzechUpper, Package::SlovakUpper, Package::SloveneBCSUpper, Package::HungarianUpper, Package::PolishUpper, Package::RomanianUpper, Package::WelshUpper, Package::GaelicUpper, Package::MalteseUpper, Package::TurkishAzeriUpper, Package::GreenlandicUpper],
            drop_diacritics: Some(false),
            keep_ligatures: Some(false),
            case_mode: Some("CapsOnly"),
            german_sharp_s_uppercase: Some("ẞ"),
        },
        Preset {
            name: "greek_monotonic_full",
            packages: &[Package::GreekCaps, Package::GreekLowerBase, Package::GreekMonotonicMarksUpper, Package::GreekMonotonicMarksLower],
            drop_diacritics: Some(false),
            keep_ligatures: Some(false),
            case_mode: Some("UpperLower"),
            german_sharp_s_uppercase: None,
        },
        Preset {
            name: "cyrillic_ru_full",
            packages: &[Package::CyrillicRuCaps, Package::CyrillicRuLower],
            drop_diacritics: Some(false),
            keep_ligatures: Some(false),
            case_mode: Some("UpperLower"),
            german_sharp_s_uppercase: None,
        },
        Preset {
            name: "cyrillic_pan_slavic",
            packages: &[Package::CyrillicRuCaps, Package::CyrillicRuLower, Package::CyrillicUkCaps, Package::CyrillicUkLower, Package::CyrillicBeCaps, Package::CyrillicBeLower, Package::CyrillicSrMeCaps, Package::CyrillicSrMeLower, Package::CyrillicMkCaps, Package::CyrillicMkLower],
            drop_diacritics: Some(false),
            keep_ligatures: Some(false),
            case_mode: Some("UpperLower"),
            german_sharp_s_uppercase: None,
        },
        Preset {
            name: "hebrew",
            packages: &[Package::Hebrew],
            drop_diacritics: Some(false),
            keep_ligatures: Some(false),
            case_mode: Some("CapsOnly"),
            german_sharp_s_uppercase: None,
        },
        Preset {
            name: "georgian_mkhedruli",
            packages: &[Package::GeorgianMkhedruli],
            drop_diacritics: Some(false),
            keep_ligatures: Some(false),
            case_mode: Some("CapsOnly"),
            german_sharp_s_uppercase: None,
        },
        Preset {
            name: "cherokee",
            packages: &[Package::CherokeeUpper, Package::CherokeeSmall],
            drop_diacritics: Some(false),
            keep_ligatures: Some(false),
            case_mode: Some("UpperLower"),
            german_sharp_s_uppercase: None,
        },
        Preset {
            name: "kana_full",
            packages: &[Package::Hiragana, Package::Katakana],
            drop_diacritics: Some(false),
            keep_ligatures: Some(false),
            case_mode: Some("CapsOnly"),
            german_sharp_s_uppercase: None,
        },
        Preset {
            name: "latin_signage_caps_strict_ascii",
            packages: &[Package::LatinAsciiUpper],
            drop_diacritics: Some(true),
            keep_ligatures: Some(false),
            case_mode: Some("CapsOnly"),
            german_sharp_s_uppercase: Some("SS"),
        },
        Preset {
            name: "latin_signage_caps_ascii_plus_common_digraphs",
            packages: &[Package::LatinAsciiUpper, Package::LatinDigraphsCommon],
            drop_diacritics: Some(true),
            keep_ligatures: Some(false),
            case_mode: Some("CapsOnly"),
            german_sharp_s_uppercase: Some("SS"),
        },
        Preset {
            name: "latin_caps_pan_western_with_accents",
            packages: &[Package::LatinAsciiUpper, Package::SpanishCoreUpper, Package::FrenchAccentsUpper, Package::GermanExtrasUpper, Package::ItalianCoreUpper, Package::PortugueseCoreUpper, Package::DanishNorwegianUpper, Package::SwedishUpper, Package::IcelandicUpper, Package::LithuanianUpper, Package::LatvianUpper, Package::CzechUpper, Package::SlovakUpper, Package::SloveneBCSUpper, Package::HungarianUpper, Package::PolishUpper, Package::RomanianUpper, Package::WelshUpper, Package::GaelicUpper, Package::MalteseUpper, Package::TurkishAzeriUpper, Package::GreenlandicUpper],
            drop_diacritics: Some(false),
            keep_ligatures: Some(false),
            case_mode: Some("CapsOnly"),
            german_sharp_s_uppercase: Some("ẞ"),
        },
        Preset {
            name: "latin_upperlower_pan_western_core_no_ligatures",
            packages: &[Package::LatinAsciiUpper, Package::LatinAsciiLower, Package::SpanishCoreUpper, Package::SpanishCoreLower, Package::FrenchAccentsUpper, Package::FrenchAccentsLower, Package::GermanExtrasUpper, Package::GermanExtrasLower, Package::ItalianCoreUpper, Package::ItalianCoreLower, Package::PortugueseCoreUpper, Package::PortugueseCoreLower, Package::DanishNorwegianUpper, Package::DanishNorwegianLower, Package::SwedishUpper, Package::SwedishLower, Package::IcelandicUpper, Package::IcelandicLower, Package::LithuanianUpper, Package::LithuanianLower, Package::LatvianUpper, Package::LatvianLower, Package::CzechUpper, Package::CzechLower, Package::SlovakUpper, Package::SlovakLower, Package::SloveneBCSUpper, Package::SloveneBCSLower, Package::HungarianUpper, Package::HungarianLower, Package::PolishUpper, Package::PolishLower, Package::RomanianUpper, Package::RomanianLower, Package::WelshUpper, Package::WelshLower, Package::GaelicUpper, Package::GaelicLower, Package::MalteseUpper, Package::MalteseLower, Package::TurkishAzeriUpper, Package::TurkishAzeriLower, Package::GreenlandicUpper, Package::GreenlandicLower],
            drop_diacritics: Some(false),
            keep_ligatures: Some(false),
            case_mode: Some("UpperLower"),
            german_sharp_s_uppercase: Some("ẞ"),
        },
        Preset {
            name: "latin_upperlower_pan_western_core_plus_ligatures",
            packages: &[Package::LatinAsciiUpper, Package::LatinAsciiLower, Package::SpanishCoreUpper, Package::SpanishCoreLower, Package::FrenchAccentsUpper, Package::FrenchAccentsLower, Package::GermanExtrasUpper, Package::GermanExtrasLower, Package::ItalianCoreUpper, Package::ItalianCoreLower, Package::PortugueseCoreUpper, Package::PortugueseCoreLower, Package::DanishNorwegianUpper, Package::DanishNorwegianLower, Package::SwedishUpper, Package::SwedishLower, Package::IcelandicUpper, Package::IcelandicLower, Package::LithuanianUpper, Package::LithuanianLower, Package::LatvianUpper, Package::LatvianLower, Package::CzechUpper, Package::CzechLower, Package::SlovakUpper, Package::SlovakLower, Package::SloveneBCSUpper, Package::SloveneBCSLower, Package::HungarianUpper, Package::HungarianLower, Package::PolishUpper, Package::PolishLower, Package::RomanianUpper, Package::RomanianLower, Package::WelshUpper, Package::WelshLower, Package::GaelicUpper, Package::GaelicLower, Package::MalteseUpper, Package::MalteseLower, Package::TurkishAzeriUpper, Package::TurkishAzeriLower, Package::GreenlandicUpper, Package::GreenlandicLower, Package::LatinLigaturesUpper, Package::LatinLigaturesLower],
            drop_diacritics: Some(false),
            keep_ligatures: Some(true),
            case_mode: Some("UpperLower"),
            german_sharp_s_uppercase: Some("ẞ"),
        },
        Preset {
            name: "spanish_caps_with_diacritics",
            packages: &[Package::LatinAsciiUpper, Package::SpanishCoreUpper, Package::PortugueseCoreUpper, Package::GermanExtrasUpper],
            drop_diacritics: Some(false),
            keep_ligatures: Some(false),
            case_mode: Some("CapsOnly"),
            german_sharp_s_uppercase: Some("SS"),
        },
        Preset {
            name: "spanish_upperlower_full_with_diacritics",
            packages: &[Package::LatinAsciiUpper, Package::LatinAsciiLower, Package::SpanishCoreUpper, Package::SpanishCoreLower, Package::PortugueseCoreUpper, Package::PortugueseCoreLower, Package::GermanExtrasUpper, Package::GermanExtrasLower],
            drop_diacritics: Some(false),
            keep_ligatures: Some(false),
            case_mode: Some("UpperLower"),
            german_sharp_s_uppercase: Some("SS"),
        },
        Preset {
            name: "french_signage_caps_drop_accents",
            packages: &[Package::LatinAsciiUpper],
            drop_diacritics: Some(true),
            keep_ligatures: Some(false),
            case_mode: Some("CapsOnly"),
            german_sharp_s_uppercase: Some("SS"),
        },
        Preset {
            name: "french_caps_with_accents_no_ligatures",
            packages: &[Package::LatinAsciiUpper, Package::FrenchAccentsUpper],
            drop_diacritics: Some(false),
            keep_ligatures: Some(false),
            case_mode: Some("CapsOnly"),
            german_sharp_s_uppercase: Some("ẞ"),
        },
        Preset {
            name: "french_upperlower_full_with_accents_and_ligatures",
            packages: &[Package::LatinAsciiUpper, Package::LatinAsciiLower, Package::FrenchAccentsUpper, Package::FrenchAccentsLower, Package::LatinLigaturesUpper, Package::LatinLigaturesLower],
            drop_diacritics: Some(false),
            keep_ligatures: Some(true),
            case_mode: Some("UpperLower"),
            german_sharp_s_uppercase: Some("ẞ"),
        },
        Preset {
            name: "german_signage_caps_transliterated",
            packages: &[Package::LatinAsciiUpper],
            drop_diacritics: Some(true),
            keep_ligatures: Some(false),
            case_mode: Some("CapsOnly"),
            german_sharp_s_uppercase: Some("SS"),
        },
        Preset {
            name: "german_caps_with_umlauts_and_eszett",
            packages: &[Package::LatinAsciiUpper, Package::GermanExtrasUpper],
            drop_diacritics: Some(false),
            keep_ligatures: Some(false),
            case_mode: Some("CapsOnly"),
            german_sharp_s_uppercase: Some("ẞ"),
        },
        Preset {
            name: "german_upperlower_full_with_umlauts_and_eszett",
            packages: &[Package::LatinAsciiUpper, Package::LatinAsciiLower, Package::GermanExtrasUpper, Package::GermanExtrasLower],
            drop_diacritics: Some(false),
            keep_ligatures: Some(false),
            case_mode: Some("UpperLower"),
            german_sharp_s_uppercase: Some("ẞ"),
        },
        Preset {
            name: "italian_signage_caps_drop_accents",
            packages: &[Package::LatinAsciiUpper],
            drop_diacritics: Some(true),
            keep_ligatures: Some(false),
            case_mode: Some("CapsOnly"),
            german_sharp_s_uppercase: Some("SS"),
        },
        Preset {
            name: "italian_caps_with_accents",
            packages: &[Package::LatinAsciiUpper, Package::ItalianCoreUpper],
            drop_diacritics: Some(false),
            keep_ligatures: Some(false),
            case_mode: Some("CapsOnly"),
            german_sharp_s_uppercase: Some("SS"),
        },
        Preset {
            name: "italian_upperlower_full_with_accents",
            packages: &[Package::LatinAsciiUpper, Package::LatinAsciiLower, Package::ItalianCoreUpper, Package::ItalianCoreLower],
            drop_diacritics: Some(false),
            keep_ligatures: Some(false),
            case_mode: Some("UpperLower"),
            german_sharp_s_uppercase: Some("SS"),
        },
        Preset {
            name: "portuguese_signage_caps_drop_accents",
            packages: &[Package::LatinAsciiUpper],
            drop_diacritics: Some(true),
            keep_ligatures: Some(false),
            case_mode: Some("CapsOnly"),
            german_sharp_s_uppercase: Some("SS"),
        },
        Preset {
            name: "portuguese_caps_with_accents",
            packages: &[Package::LatinAsciiUpper, Package::PortugueseCoreUpper],
            drop_diacritics: Some(false),
            keep_ligatures: Some(false),
            case_mode: Some("CapsOnly"),
            german_sharp_s_uppercase: Some("SS"),
        },
        Preset {
            name: "portuguese_upperlower_full_with_accents",
            packages: &[Package::LatinAsciiUpper, Package::LatinAsciiLower, Package::PortugueseCoreUpper, Package::PortugueseCoreLower],
            drop_diacritics: Some(false),
            keep_ligatures: Some(false),
            case_mode: Some("UpperLower"),
            german_sharp_s_uppercase: Some("SS"),
        },
        Preset {
            name: "danish_norwegian_caps_with_æøå",
            packages: &[Package::LatinAsciiUpper, Package::DanishNorwegianUpper],
            drop_diacritics: Some(false),
            keep_ligatures: Some(false),
            case_mode: Some("CapsOnly"),
            german_sharp_s_uppercase: Some("SS"),
        },
        Preset {
            name: "danish_norwegian_upperlower_full",
            packages: &[Package::LatinAsciiUpper, Package::LatinAsciiLower, Package::DanishNorwegianUpper, Package::DanishNorwegianLower],
            drop_diacritics: Some(false),
            keep_ligatures: Some(false),
            case_mode: Some("UpperLower"),
            german_sharp_s_uppercase: Some("SS"),
        },
        Preset {
            name: "swedish_caps_with_åäö",
            packages: &[Package::LatinAsciiUpper, Package::SwedishUpper],
            drop_diacritics: Some(false),
            keep_ligatures: Some(false),
            case_mode: Some("CapsOnly"),
            german_sharp_s_uppercase: Some("SS"),
        },
        Preset {
            name: "swedish_upperlower_full",
            packages: &[Package::LatinAsciiUpper, Package::LatinAsciiLower, Package::SwedishUpper, Package::SwedishLower],
            drop_diacritics: Some(false),
            keep_ligatures: Some(false),
            case_mode: Some("UpperLower"),
            german_sharp_s_uppercase: Some("SS"),
        },
        Preset {
            name: "icelandic_caps_core",
            packages: &[Package::LatinAsciiUpper, Package::IcelandicUpper],
            drop_diacritics: Some(false),
            keep_ligatures: Some(false),
            case_mode: Some("CapsOnly"),
            german_sharp_s_uppercase: Some("SS"),
        },
        Preset {
            name: "icelandic_upperlower_full",
            packages: &[Package::LatinAsciiUpper, Package::LatinAsciiLower, Package::IcelandicUpper, Package::IcelandicLower],
            drop_diacritics: Some(false),
            keep_ligatures: Some(false),
            case_mode: Some("UpperLower"),
            german_sharp_s_uppercase: Some("SS"),
        },
        Preset {
            name: "lithuanian_upperlower_full",
            packages: &[Package::LatinAsciiUpper, Package::LatinAsciiLower, Package::LithuanianUpper, Package::LithuanianLower],
            drop_diacritics: Some(false),
            keep_ligatures: Some(false),
            case_mode: Some("UpperLower"),
            german_sharp_s_uppercase: Some("SS"),
        },
        Preset {
            name: "latvian_upperlower_full",
            packages: &[Package::LatinAsciiUpper, Package::LatinAsciiLower, Package::LatvianUpper, Package::LatvianLower],
            drop_diacritics: Some(false),
            keep_ligatures: Some(false),
            case_mode: Some("UpperLower"),
            german_sharp_s_uppercase: Some("SS"),
        },
        Preset {
            name: "czech_upperlower_full",
            packages: &[Package::LatinAsciiUpper, Package::LatinAsciiLower, Package::CzechUpper, Package::CzechLower],
            drop_diacritics: Some(false),
            keep_ligatures: Some(false),
            case_mode: Some("UpperLower"),
            german_sharp_s_uppercase: Some("SS"),
        },
        Preset {
            name: "slovak_upperlower_full",
            packages: &[Package::LatinAsciiUpper, Package::LatinAsciiLower, Package::SlovakUpper, Package::SlovakLower],
            drop_diacritics: Some(false),
            keep_ligatures: Some(false),
            case_mode: Some("UpperLower"),
            german_sharp_s_uppercase: Some("SS"),
        },
        Preset {
            name: "slovene_bcs_upperlower_full",
            packages: &[Package::LatinAsciiUpper, Package::LatinAsciiLower, Package::SloveneBCSUpper, Package::SloveneBCSLower],
            drop_diacritics: Some(false),
            keep_ligatures: Some(false),
            case_mode: Some("UpperLower"),
            german_sharp_s_uppercase: Some("SS"),
        },
        Preset {
            name: "hungarian_upperlower_full",
            packages: &[Package::LatinAsciiUpper, Package::LatinAsciiLower, Package::HungarianUpper, Package::HungarianLower],
            drop_diacritics: Some(false),
            keep_ligatures: Some(false),
            case_mode: Some("UpperLower"),
            german_sharp_s_uppercase: Some("SS"),
        },
        Preset {
            name: "polish_upperlower_full",
            packages: &[Package::LatinAsciiUpper, Package::LatinAsciiLower, Package::PolishUpper, Package::PolishLower],
            drop_diacritics: Some(false),
            keep_ligatures: Some(false),
            case_mode: Some("UpperLower"),
            german_sharp_s_uppercase: Some("SS"),
        },
        Preset {
            name: "romanian_upperlower_full_modern",
            packages: &[Package::LatinAsciiUpper, Package::LatinAsciiLower, Package::RomanianUpper, Package::RomanianLower],
            drop_diacritics: Some(false),
            keep_ligatures: Some(false),
            case_mode: Some("UpperLower"),
            german_sharp_s_uppercase: Some("SS"),
        },
        Preset {
            name: "welsh_upperlower_core",
            packages: &[Package::LatinAsciiUpper, Package::LatinAsciiLower, Package::WelshUpper, Package::WelshLower],
            drop_diacritics: Some(false),
            keep_ligatures: Some(false),
            case_mode: Some("UpperLower"),
            german_sharp_s_uppercase: Some("SS"),
        },
        Preset {
            name: "gaelic_upperlower_core",
            packages: &[Package::LatinAsciiUpper, Package::LatinAsciiLower, Package::GaelicUpper, Package::GaelicLower],
            drop_diacritics: Some(false),
            keep_ligatures: Some(false),
            case_mode: Some("UpperLower"),
            german_sharp_s_uppercase: Some("SS"),
        },
        Preset {
            name: "maltese_upperlower_core",
            packages: &[Package::LatinAsciiUpper, Package::LatinAsciiLower, Package::MalteseUpper, Package::MalteseLower],
            drop_diacritics: Some(false),
            keep_ligatures: Some(false),
            case_mode: Some("UpperLower"),
            german_sharp_s_uppercase: Some("SS"),
        },
        Preset {
            name: "turkish_azeri_upperlower_core",
            packages: &[Package::LatinAsciiUpper, Package::LatinAsciiLower, Package::TurkishAzeriUpper, Package::TurkishAzeriLower],
            drop_diacritics: Some(false),
            keep_ligatures: Some(false),
            case_mode: Some("UpperLower"),
            german_sharp_s_uppercase: Some("SS"),
        },
        Preset {
            name: "greenlandic_upperlower_core",
            packages: &[Package::LatinAsciiUpper, Package::LatinAsciiLower, Package::GreenlandicUpper, Package::GreenlandicLower],
            drop_diacritics: Some(false),
            keep_ligatures: Some(false),
            case_mode: Some("UpperLower"),
            german_sharp_s_uppercase: Some("SS"),
        },
        Preset {
            name: "vietnamese_signage_caps_drop_accents",
            packages: &[Package::LatinAsciiUpper],
            drop_diacritics: Some(true),
            keep_ligatures: Some(false),
            case_mode: Some("CapsOnly"),
            german_sharp_s_uppercase: Some("SS"),
        },
        Preset {
            name: "vietnamese_upperlower_full",
            packages: &[Package::VietnameseUpper, Package::VietnameseLower],
            drop_diacritics: Some(false),
            keep_ligatures: Some(false),
            case_mode: Some("UpperLower"),
            german_sharp_s_uppercase: Some("SS"),
        },
        Preset {
            name: "pinyin_upperlower_tone_vowels",
            packages: &[Package::LatinAsciiUpper, Package::LatinAsciiLower, Package::LatinPinyinUpper, Package::LatinPinyinLower],
            drop_diacritics: Some(false),
            keep_ligatures: Some(false),
            case_mode: Some("UpperLower"),
            german_sharp_s_uppercase: Some("SS"),
        },
        Preset {
            name: "ipa_letters_core_only",
            packages: &[Package::LatinIpaCore],
            drop_diacritics: Some(false),
            keep_ligatures: Some(false),
            case_mode: Some("LowerOnly"),
            german_sharp_s_uppercase: None,
        },
        Preset {
            name: "ipa_core_plus_modifiers",
            packages: &[Package::LatinIpaCore, Package::LatinIpaModifiers],
            drop_diacritics: Some(false),
            keep_ligatures: Some(false),
            case_mode: Some("LowerOnly"),
            german_sharp_s_uppercase: None,
        },
        Preset {
            name: "ipa_africanist_extended_with_clicks",
            packages: &[Package::LatinIpaCore, Package::LatinIpaModifiers, Package::LatinAfricanLower, Package::LatinAfricanUpper, Package::LatinClicks],
            drop_diacritics: Some(false),
            keep_ligatures: Some(false),
            case_mode: Some("UpperLower"),
            german_sharp_s_uppercase: None,
        },
        Preset {
            name: "yoruba_upperlower_core",
            packages: &[Package::LatinAsciiUpper, Package::LatinAsciiLower, Package::YorubaUpper, Package::YorubaLower],
            drop_diacritics: Some(false),
            keep_ligatures: Some(false),
            case_mode: Some("UpperLower"),
            german_sharp_s_uppercase: Some("SS"),
        },
        Preset {
            name: "yoruba_upperlower_with_tone_sequences",
            packages: &[Package::LatinAsciiUpper, Package::LatinAsciiLower, Package::YorubaUpper, Package::YorubaLower, Package::YorubaTonesUpper, Package::YorubaTonesLower],
            drop_diacritics: Some(false),
            keep_ligatures: Some(false),
            case_mode: Some("UpperLower"),
            german_sharp_s_uppercase: Some("SS"),
        },
        Preset {
            name: "kikuyu_upperlower_core",
            packages: &[Package::LatinAsciiUpper, Package::LatinAsciiLower, Package::KikuyuUpper, Package::KikuyuLower],
            drop_diacritics: Some(false),
            keep_ligatures: Some(false),
            case_mode: Some("UpperLower"),
            german_sharp_s_uppercase: Some("SS"),
        },
        Preset {
            name: "salish_upperlower_core",
            packages: &[Package::LatinAsciiUpper, Package::LatinAsciiLower, Package::LatinSalishUpper, Package::LatinSalishLower],
            drop_diacritics: Some(false),
            keep_ligatures: Some(false),
            case_mode: Some("UpperLower"),
            german_sharp_s_uppercase: Some("SS"),
        },
        Preset {
            name: "esperanto_upperlower_core",
            packages: &[Package::LatinAsciiUpper, Package::LatinAsciiLower, Package::EsperantoUpper, Package::EsperantoLower],
            drop_diacritics: Some(false),
            keep_ligatures: Some(false),
            case_mode: Some("UpperLower"),
            german_sharp_s_uppercase: Some("SS"),
        },
        Preset {
            name: "greek_caps_no_marks",
            packages: &[Package::GreekCaps],
            drop_diacritics: Some(true),
            keep_ligatures: Some(false),
            case_mode: Some("CapsOnly"),
            german_sharp_s_uppercase: None,
        },
        Preset {
            name: "greek_caps_with_monotonic_marks",
            packages: &[Package::GreekCaps, Package::GreekMonotonicMarksUpper],
            drop_diacritics: Some(false),
            keep_ligatures: Some(false),
            case_mode: Some("CapsOnly"),
            german_sharp_s_uppercase: None,
        },
        Preset {
            name: "cyrillic_russian_caps_signage",
            packages: &[Package::CyrillicRuCaps],
            drop_diacritics: Some(false),
            keep_ligatures: Some(false),
            case_mode: Some("CapsOnly"),
            german_sharp_s_uppercase: None,
        },
        Preset {
            name: "cyrillic_russian_upperlower_full",
            packages: &[Package::CyrillicRuCaps, Package::CyrillicRuLower],
            drop_diacritics: Some(false),
            keep_ligatures: Some(false),
            case_mode: Some("UpperLower"),
            german_sharp_s_uppercase: None,
        },
        Preset {
            name: "cyrillic_ukrainian_upperlower_full",
            packages: &[Package::CyrillicUkCaps, Package::CyrillicUkLower],
            drop_diacritics: Some(false),
            keep_ligatures: Some(false),
            case_mode: Some("UpperLower"),
            german_sharp_s_uppercase: None,
        },
        Preset {
            name: "cyrillic_belarusian_upperlower_full",
            packages: &[Package::CyrillicBeCaps, Package::CyrillicBeLower],
            drop_diacritics: Some(false),
            keep_ligatures: Some(false),
            case_mode: Some("UpperLower"),
            german_sharp_s_uppercase: None,
        },
        Preset {
            name: "cyrillic_serbian_montenegrin_upperlower_full",
            packages: &[Package::CyrillicSrMeCaps, Package::CyrillicSrMeLower],
            drop_diacritics: Some(false),
            keep_ligatures: Some(false),
            case_mode: Some("UpperLower"),
            german_sharp_s_uppercase: None,
        },
        Preset {
            name: "cyrillic_macedonian_upperlower_full",
            packages: &[Package::CyrillicMkCaps, Package::CyrillicMkLower],
            drop_diacritics: Some(false),
            keep_ligatures: Some(false),
            case_mode: Some("UpperLower"),
            german_sharp_s_uppercase: None,
        },
        Preset {
            name: "cyrillic_bulgarian_upperlower_full",
            packages: &[Package::CyrillicRuCaps, Package::CyrillicRuLower],
            drop_diacritics: Some(false),
            keep_ligatures: Some(false),
            case_mode: Some("UpperLower"),
            german_sharp_s_uppercase: None,
        },
        Preset {
            name: "arabic_core_basic",
            packages: &[Package::ArabicCore],
            drop_diacritics: Some(false),
            keep_ligatures: Some(false),
            case_mode: Some("CapsOnly"),
            german_sharp_s_uppercase: None,
        },
        Preset {
            name: "persian_urdu_core",
            packages: &[Package::ArabicCore, Package::PersianUrduExtras],
            drop_diacritics: Some(false),
            keep_ligatures: Some(false),
            case_mode: Some("CapsOnly"),
            german_sharp_s_uppercase: None,
        },
        Preset {
            name: "hebrew_basic_unicameral",
            packages: &[Package::Hebrew],
            drop_diacritics: Some(false),
            keep_ligatures: Some(false),
            case_mode: Some("CapsOnly"),
            german_sharp_s_uppercase: None,
        },
        Preset {
            name: "syriac_core_basic",
            packages: &[Package::SyriacCore],
            drop_diacritics: Some(false),
            keep_ligatures: Some(false),
            case_mode: Some("CapsOnly"),
            german_sharp_s_uppercase: None,
        },
        Preset {
            name: "thaana_core_basic",
            packages: &[Package::ThaanaCore],
            drop_diacritics: Some(false),
            keep_ligatures: Some(false),
            case_mode: Some("CapsOnly"),
            german_sharp_s_uppercase: None,
        },
        Preset {
            name: "devanagari_core_basic",
            packages: &[Package::DevanagariCore],
            drop_diacritics: Some(false),
            keep_ligatures: Some(false),
            case_mode: Some("CapsOnly"),
            german_sharp_s_uppercase: None,
        },
        Preset {
            name: "bengali_core_basic",
            packages: &[Package::BengaliCore],
            drop_diacritics: Some(false),
            keep_ligatures: Some(false),
            case_mode: Some("CapsOnly"),
            german_sharp_s_uppercase: None,
        },
        Preset {
            name: "gurmukhi_core_basic",
            packages: &[Package::GurmukhiCore],
            drop_diacritics: Some(false),
            keep_ligatures: Some(false),
            case_mode: Some("CapsOnly"),
            german_sharp_s_uppercase: None,
        },
        Preset {
            name: "gujarati_core_basic",
            packages: &[Package::GujaratiCore],
            drop_diacritics: Some(false),
            keep_ligatures: Some(false),
            case_mode: Some("CapsOnly"),
            german_sharp_s_uppercase: None,
        },
        Preset {
            name: "odia_core_basic",
            packages: &[Package::OdiaCore],
            drop_diacritics: Some(false),
            keep_ligatures: Some(false),
            case_mode: Some("CapsOnly"),
            german_sharp_s_uppercase: None,
        },
        Preset {
            name: "tamil_core_basic",
            packages: &[Package::TamilCore],
            drop_diacritics: Some(false),
            keep_ligatures: Some(false),
            case_mode: Some("CapsOnly"),
            german_sharp_s_uppercase: None,
        },
        Preset {
            name: "telugu_core_basic",
            packages: &[Package::TeluguCore],
            drop_diacritics: Some(false),
            keep_ligatures: Some(false),
            case_mode: Some("CapsOnly"),
            german_sharp_s_uppercase: None,
        },
        Preset {
            name: "kannada_core_basic",
            packages: &[Package::KannadaCore],
            drop_diacritics: Some(false),
            keep_ligatures: Some(false),
            case_mode: Some("CapsOnly"),
            german_sharp_s_uppercase: None,
        },
        Preset {
            name: "malayalam_core_basic",
            packages: &[Package::MalayalamCore],
            drop_diacritics: Some(false),
            keep_ligatures: Some(false),
            case_mode: Some("CapsOnly"),
            german_sharp_s_uppercase: None,
        },
        Preset {
            name: "sinhala_core_basic",
            packages: &[Package::SinhalaCore],
            drop_diacritics: Some(false),
            keep_ligatures: Some(false),
            case_mode: Some("CapsOnly"),
            german_sharp_s_uppercase: None,
        },
        Preset {
            name: "thai_core_basic",
            packages: &[Package::ThaiCore],
            drop_diacritics: Some(false),
            keep_ligatures: Some(false),
            case_mode: Some("CapsOnly"),
            german_sharp_s_uppercase: None,
        },
        Preset {
            name: "lao_core_basic",
            packages: &[Package::LaoCore],
            drop_diacritics: Some(false),
            keep_ligatures: Some(false),
            case_mode: Some("CapsOnly"),
            german_sharp_s_uppercase: None,
        },
        Preset {
            name: "tibetan_core_basic",
            packages: &[Package::TibetanCore],
            drop_diacritics: Some(false),
            keep_ligatures: Some(false),
            case_mode: Some("CapsOnly"),
            german_sharp_s_uppercase: None,
        },
        Preset {
            name: "myanmar_core_basic",
            packages: &[Package::MyanmarCore],
            drop_diacritics: Some(false),
            keep_ligatures: Some(false),
            case_mode: Some("CapsOnly"),
            german_sharp_s_uppercase: None,
        },
        Preset {
            name: "khmer_core_basic",
            packages: &[Package::KhmerCore],
            drop_diacritics: Some(false),
            keep_ligatures: Some(false),
            case_mode: Some("CapsOnly"),
            german_sharp_s_uppercase: None,
        },
        Preset {
            name: "hiragana_only",
            packages: &[Package::Hiragana],
            drop_diacritics: Some(false),
            keep_ligatures: Some(false),
            case_mode: Some("CapsOnly"),
            german_sharp_s_uppercase: None,
        },
        Preset {
            name: "katakana_only",
            packages: &[Package::Katakana],
            drop_diacritics: Some(false),
            keep_ligatures: Some(false),
            case_mode: Some("CapsOnly"),
            german_sharp_s_uppercase: None,
        },
        Preset {
            name: "hangul_jamo_all",
            packages: &[Package::HangulJamoAll],
            drop_diacritics: Some(false),
            keep_ligatures: Some(false),
            case_mode: Some("CapsOnly"),
            german_sharp_s_uppercase: None,
        },
        Preset {
            name: "ethiopic_core_basic",
            packages: &[Package::EthiopicCore],
            drop_diacritics: Some(false),
            keep_ligatures: Some(false),
            case_mode: Some("CapsOnly"),
            german_sharp_s_uppercase: None,
        },
        Preset {
            name: "inuktitut_core_basic",
            packages: &[Package::InuktitutCore],
            drop_diacritics: Some(false),
            keep_ligatures: Some(false),
            case_mode: Some("CapsOnly"),
            german_sharp_s_uppercase: None,
        },
        Preset {
            name: "cree_core_basic",
            packages: &[Package::CreeCore],
            drop_diacritics: Some(false),
            keep_ligatures: Some(false),
            case_mode: Some("CapsOnly"),
            german_sharp_s_uppercase: None,
        },
        Preset {
            name: "numbers_ascii_only_signage",
            packages: &[Package::DigitsAscii],
            drop_diacritics: Some(false),
            keep_ligatures: Some(false),
            case_mode: Some("CapsOnly"),
            german_sharp_s_uppercase: None,
        },
        Preset {
            name: "numbers_multiscript_common_global",
            packages: &[Package::DigitsAscii, Package::DigitsArabicIndic, Package::DigitsExtendedArabicIndic, Package::DigitsDevanagari, Package::DigitsThai],
            drop_diacritics: Some(false),
            keep_ligatures: Some(false),
            case_mode: Some("CapsOnly"),
            german_sharp_s_uppercase: None,
        },
        Preset {
            name: "numbers_multiscript_south_asia",
            packages: &[Package::DigitsAscii, Package::DigitsDevanagari, Package::DigitsBengali, Package::DigitsGurmukhi, Package::DigitsGujarati, Package::DigitsOdia, Package::DigitsTamil, Package::DigitsTelugu, Package::DigitsKannada, Package::DigitsMalayalam, Package::DigitsSinhala],
            drop_diacritics: Some(false),
            keep_ligatures: Some(false),
            case_mode: Some("CapsOnly"),
            german_sharp_s_uppercase: None,
        },
        Preset {
            name: "math_signage_minimal",
            packages: &[Package::MathBasicArithmetic],
            drop_diacritics: Some(false),
            keep_ligatures: Some(false),
            case_mode: Some("CapsOnly"),
            german_sharp_s_uppercase: None,
        },
        Preset {
            name: "math_algebra_full",
            packages: &[Package::MathBasicArithmetic, Package::MathAlgebraCore, Package::MathSetRelations, Package::MathTypographicVariants],
            drop_diacritics: Some(false),
            keep_ligatures: Some(true),
            case_mode: Some("CapsOnly"),
            german_sharp_s_uppercase: None,
        },
        Preset {
            name: "math_advanced",
            packages: &[Package::MathBasicArithmetic, Package::MathAlgebraCore, Package::MathSetRelations, Package::MathCalculusCore, Package::MathLogicCore, Package::MathArrowsBasic, Package::MathTypographicVariants],
            drop_diacritics: Some(false),
            keep_ligatures: Some(true),
            case_mode: Some("CapsOnly"),
            german_sharp_s_uppercase: None,
        },
        Preset {
            name: "math_latex_extended",
            packages: &[Package::MathBasicArithmetic, Package::MathAlgebraCore, Package::MathSetRelations, Package::MathCalculusCore, Package::MathLogicCore, Package::MathArrowsBasic, Package::MathArrowsExtended, Package::MathDelimitersExtended, Package::MathOperatorsExtended, Package::MathDoubleStruckSets, Package::DigitsSuperscriptCore, Package::DigitsSubscriptCore, Package::MathTypographicVariants],
            drop_diacritics: Some(false),
            keep_ligatures: Some(true),
            case_mode: Some("CapsOnly"),
            german_sharp_s_uppercase: None,
        },
        Preset {
            name: "math_context_arabic",
            packages: &[Package::MathBasicArithmetic, Package::MathArabicNumericSymbols, Package::DigitsArabicIndic, Package::DigitsExtendedArabicIndic],
            drop_diacritics: Some(false),
            keep_ligatures: Some(true),
            case_mode: Some("CapsOnly"),
            german_sharp_s_uppercase: None,
        },
        Preset {
            name: "math_fullwidth_east_asian_basic",
            packages: &[Package::MathFullwidthBasicEastAsian, Package::DigitsAscii],
            drop_diacritics: Some(false),
            keep_ligatures: Some(true),
            case_mode: Some("CapsOnly"),
            german_sharp_s_uppercase: None,
        },
        Preset {
            name: "punct_basic_latin_word_sentence",
            packages: &[Package::PunctuationWordBasicLatin, Package::PunctuationSentenceBasicLatin],
            drop_diacritics: Some(false),
            keep_ligatures: Some(false),
            case_mode: Some("CapsOnly"),
            german_sharp_s_uppercase: None,
        },
        Preset {
            name: "punct_language_spanish",
            packages: &[Package::PunctuationWordBasicLatin, Package::PunctuationSentenceBasicLatin, Package::PunctuationSpanishExtras, Package::PunctuationDashesBasic],
            drop_diacritics: Some(false),
            keep_ligatures: Some(false),
            case_mode: Some("CapsOnly"),
            german_sharp_s_uppercase: None,
        },
        Preset {
            name: "punct_language_arabic",
            packages: &[Package::PunctuationArabicCore, Package::PunctuationDashesBasic],
            drop_diacritics: Some(false),
            keep_ligatures: Some(false),
            case_mode: Some("CapsOnly"),
            german_sharp_s_uppercase: None,
        },
        Preset {
            name: "punct_language_devanagari",
            packages: &[Package::PunctuationDevanagariCore, Package::PunctuationDashesBasic],
            drop_diacritics: Some(false),
            keep_ligatures: Some(false),
            case_mode: Some("CapsOnly"),
            german_sharp_s_uppercase: None,
        },
        Preset {
            name: "punct_language_japanese",
            packages: &[Package::PunctuationJapaneseCore, Package::PunctuationDashesBasic],
            drop_diacritics: Some(false),
            keep_ligatures: Some(false),
            case_mode: Some("CapsOnly"),
            german_sharp_s_uppercase: None,
        },
        Preset {
            name: "punct_dashes_minimal_signage",
            packages: &[Package::PunctuationDashesBasic],
            drop_diacritics: Some(false),
            keep_ligatures: Some(false),
            case_mode: Some("CapsOnly"),
            german_sharp_s_uppercase: None,
        },
        Preset {
            name: "punct_dashes_full_editorial",
            packages: &[Package::PunctuationDashesAll],
            drop_diacritics: Some(false),
            keep_ligatures: Some(false),
            case_mode: Some("CapsOnly"),
            german_sharp_s_uppercase: None,
        },
        Preset {
            name: "hawaiian_upperlower_core",
            packages: &[Package::LatinAsciiUpper, Package::LatinAsciiLower, Package::HawaiianCoreUpper, Package::HawaiianCoreLower, Package::HawaiianOkina],
            drop_diacritics: Some(false),
            keep_ligatures: Some(false),
            case_mode: Some("UpperLower"),
            german_sharp_s_uppercase: Some("SS"),
        },
        Preset {
            name: "punct_editorial_basic",
            packages: &[Package::PunctuationSentenceBasicLatin, Package::PunctuationDashesBasic, Package::PunctuationSectionsBasic, Package::PunctuationLetterlikeSymbols],
            drop_diacritics: Some(false),
            keep_ligatures: Some(false),
            case_mode: Some("CapsOnly"),
            german_sharp_s_uppercase: None,
        },
    ]
}

/// The names by which a configuration selects packages.
pub open spec fn package_name_table() -> Seq<(&'static str, Package)> {
    seq![
        ("arabic.core", Package::ArabicCore),
        ("armenian.caps", Package::ArmenianCaps),
        ("armenian.lower", Package::ArmenianLower),
        ("bengali.core", Package::BengaliCore),
        ("braille.patterns", Package::BraillePatterns),
        ("cas.cree.core", Package::CreeCore),
        ("cas.inuktitut.core", Package::InuktitutCore),
        ("cherokee.small", Package::CherokeeSmall),
        ("cherokee.upper", Package::CherokeeUpper),
        ("cyr.be.caps", Package::CyrillicBeCaps),
        ("cyr.be.lower", Package::CyrillicBeLower),
        ("cyr.bg.caps", Package::CyrillicBgCaps),
        ("cyr.bg.lower", Package::CyrillicBgLower),
        ("cyr.mk.caps", Package::CyrillicMkCaps),
        ("cyr.mk.lower", Package::CyrillicMkLower),
        ("cyr.ru.caps", Package::CyrillicRuCaps),
        ("cyr.ru.lower", Package::CyrillicRuLower),
        ("cyr.srme.caps", Package::CyrillicSrMeCaps),
        ("cyr.srme.lower", Package::CyrillicSrMeLower),
        ("cyr.uk.caps", Package::CyrillicUkCaps),
        ("cyr.uk.lower", Package::CyrillicUkLower),
        ("czech.lower", Package::CzechLower),
        ("czech.upper", Package::CzechUpper),
        ("danish_norwegian.lower", Package::DanishNorwegianLower),
        ("danish_norwegian.upper", Package::DanishNorwegianUpper),
        ("devanagari.core", Package::DevanagariCore),
        ("digits.arabic_indic", Package::DigitsArabicIndic),
        ("digits.ascii", Package::DigitsAscii),
        ("digits.bengali", Package::DigitsBengali),
        ("digits.devanagari", Package::DigitsDevanagari),
        ("digits.extended_arabic_indic", Package::DigitsExtendedArabicIndic),
        ("digits.gujarati", Package::DigitsGujarati),
        ("digits.gurmukhi", Package::DigitsGurmukhi),
        ("digits.kannada", Package::DigitsKannada),
        ("digits.khmer", Package::DigitsKhmer),
        ("digits.lao", Package::DigitsLao),
        ("digits.malayalam", Package::DigitsMalayalam),
        ("digits.myanmar", Package::DigitsMyanmar),
        ("digits.odia", Package::DigitsOdia),
        ("digits.sinhala", Package::DigitsSinhala),
        ("digits.subscript.core", Package::DigitsSubscriptCore),
        ("digits.superscript.core", Package::DigitsSuperscriptCore),
        ("digits.tamil", Package::DigitsTamil),
        ("digits.telugu", Package::DigitsTelugu),
        ("digits.thai", Package::DigitsThai),
        ("digits.tibetan", Package::DigitsTibetan),
        ("esperanto.lower", Package::EsperantoLower),
        ("esperanto.upper", Package::EsperantoUpper),
        ("ethiopic.core", Package::EthiopicCore),
        ("french.accents.lower", Package::FrenchAccentsLower),
        ("french.accents.upper", Package::FrenchAccentsUpper),
        ("gaelic.lower", Package::GaelicLower),
        ("gaelic.upper", Package::GaelicUpper),
        ("georgian.mkhedruli", Package::GeorgianMkhedruli),
        ("georgian.mtavruli", Package::GeorgianMtavruli),
        ("german.extras.lower", Package::GermanExtrasLower),
        ("german.extras.upper", Package::GermanExtrasUpper),
        ("greek.caps", Package::GreekCaps),
        ("greek.lower.base", Package::GreekLowerBase),
        ("greek.monotonic.marks.lower", Package::GreekMonotonicMarksLower),
        ("greek.monotonic.marks.upper", Package::GreekMonotonicMarksUpper),
        ("greenlandic.lower", Package::GreenlandicLower),
        ("greenlandic.upper", Package::GreenlandicUpper),
        ("gujarati.core", Package::GujaratiCore),
        ("gurmukhi.core", Package::GurmukhiCore),
        ("hangul.jamo", Package::HangulJamoAll),
        ("hangul.jamo.L", Package::HangulJamoL),
        ("hangul.jamo.T", Package::HangulJamoT),
        ("hangul.jamo.V", Package::HangulJamoV),
        ("hangul.jamo.all", Package::HangulJamoAll),
        ("hawaiian.core.lower", Package::HawaiianCoreLower),
        ("hawaiian.core.upper", Package::HawaiianCoreUpper),
        ("hawaiian.okina", Package::HawaiianOkina),
        ("hebrew.core", Package::Hebrew),
        ("hungarian.lower", Package::HungarianLower),
        ("hungarian.upper", Package::HungarianUpper),
        ("icelandic.lower", Package::IcelandicLower),
        ("icelandic.upper", Package::IcelandicUpper),
        ("italian.core.lower", Package::ItalianCoreLower),
        ("italian.core.upper", Package::ItalianCoreUpper),
        ("kana.hiragana", Package::Hiragana),
        ("kana.katakana", Package::Katakana),
        ("kannada.core", Package::KannadaCore),
        ("khmer.core", Package::KhmerCore),
        ("kikuyu.lower", Package::KikuyuLower),
        ("kikuyu.upper", Package::KikuyuUpper),
        ("lao.core", Package::LaoCore),
        ("latin.african.lower", Package::LatinAfricanLower),
        ("latin.african.upper", Package::LatinAfricanUpper),
        ("latin.ascii.lower", Package::LatinAsciiLower),
        ("latin.ascii.upper", Package::LatinAsciiUpper),
        ("latin.clicks", Package::LatinClicks),
        ("latin.digraphs.all", Package::LatinDigraphsAll),
        ("latin.digraphs.catalan", Package::LatinDigraphsCatalan),
        ("latin.digraphs.common", Package::LatinDigraphsCommon),
        ("latin.digraphs.maltese", Package::LatinDigraphsMaltese),
        ("latin.extended.ogonek.lower", Package::LatinExtendedOgonekLower),
        ("latin.extended.ogonek.upper", Package::LatinExtendedOgonekUpper),
        ("latin.ipa.core", Package::LatinIpaCore),
        ("latin.ipa.modifiers", Package::LatinIpaModifiers),
        ("latin.ligatures.lower", Package::LatinLigaturesLower),
        ("latin.ligatures.upper", Package::LatinLigaturesUpper),
        ("latin.pinyin.lower", Package::LatinPinyinLower),
        ("latin.pinyin.upper", Package::LatinPinyinUpper),
        ("latin.salish.lower", Package::LatinSalishLower),
        ("latin.salish.upper", Package::LatinSalishUpper),
        ("latin.small.caps.extended", Package::LatinSmallCapsExtended),
        ("latvian.lower", Package::LatvianLower),
        ("latvian.upper", Package::LatvianUpper),
        ("lithuanian.lower", Package::LithuanianLower),
        ("lithuanian.upper", Package::LithuanianUpper),
        ("malayalam.core", Package::MalayalamCore),
        ("maltese.lower", Package::MalteseLower),
        ("maltese.upper", Package::MalteseUpper),
        ("math.algebra_core", Package::MathAlgebraCore),
        ("math.arabic.numeric_symbols", Package::MathArabicNumericSymbols),
        ("math.arrows.basic", Package::MathArrowsBasic),
        ("math.arrows.extended", Package::MathArrowsExtended),
        ("math.basic_arithmetic", Package::MathBasicArithmetic),
        ("math.calculus_core", Package::MathCalculusCore),
        ("math.delimiters.extended", Package::MathDelimitersExtended),
        ("math.double_struck.sets", Package::MathDoubleStruckSets),
        ("math.fullwidth.basic_east_asian", Package::MathFullwidthBasicEastAsian),
        ("math.logic_core", Package::MathLogicCore),
        ("math.operators.extended", Package::MathOperatorsExtended),
        ("math.set_relations", Package::MathSetRelations),
        ("math.typographic.variants", Package::MathTypographicVariants),
        ("myanmar.core", Package::MyanmarCore),
        ("odia.core", Package::OdiaCore),
        ("persian_urdu.extras", Package::PersianUrduExtras),
        ("polish.lower", Package::PolishLower),
        ("polish.upper", Package::PolishUpper),
        ("portuguese.core.lower", Package::PortugueseCoreLower),
        ("portuguese.core.upper", Package::PortugueseCoreUpper),
        ("punct.arabic.core", Package::PunctuationArabicCore),
        ("punct.dashes.all", Package::PunctuationDashesAll),
        ("punct.dashes.basic", Package::PunctuationDashesBasic),
        ("punct.dashes.extended", Package::PunctuationDashesExtended),
        ("punct.devanagari.core", Package::PunctuationDevanagariCore),
        ("punct.greek.ano_teleia", Package::PunctuationGreekAnoTeleia),
        ("punct.hebrew.core", Package::PunctuationHebrewCore),
        ("punct.japanese.core", Package::PunctuationJapaneseCore),
        ("punct.khmer.core", Package::PunctuationKhmerCore),
        ("punct.lao.core", Package::PunctuationLaoCore),
        ("punct.myanmar.core", Package::PunctuationMyanmarCore),
        ("punct.sentence.basic_latin", Package::PunctuationSentenceBasicLatin),
        ("punct.spanish.extras", Package::PunctuationSpanishExtras),
        ("punct.thai.core", Package::PunctuationThaiCore),
        ("punct.tibetan.core", Package::PunctuationTibetanCore),
        ("punct.underscore.basic", Package::PunctuationUnderscoreBasic),
        ("punct.underscore.extended", Package::PunctuationUnderscoreExtended),
        ("punct.word.basic_latin", Package::PunctuationWordBasicLatin),
        ("punctuation.currency.extended", Package::PunctuationCurrencyExtended),
        ("punctuation.letterlike.symbols", Package::PunctuationLetterlikeSymbols),
        ("punctuation.primes.basic", Package::PunctuationPrimesBasic),
        ("punctuation.sections.basic", Package::PunctuationSectionsBasic),
        ("romanian.legacy.cedilla.lower", Package::RomanianLegacyCedillaLower),
        ("romanian.legacy.cedilla.upper", Package::RomanianLegacyCedillaUpper),
        ("romanian.lower", Package::RomanianLower),
        ("romanian.upper", Package::RomanianUpper),
        ("sinhala.core", Package::SinhalaCore),
        ("slovak.lower", Package::SlovakLower),
        ("slovak.upper", Package::SlovakUpper),
        ("slovene_bcs.lower", Package::SloveneBCSLower),
        ("slovene_bcs.upper", Package::SloveneBCSUpper),
        ("spanish.core.lower", Package::SpanishCoreLower),
        ("spanish.core.upper", Package::SpanishCoreUpper),
        ("swedish.lower", Package::SwedishLower),
        ("swedish.upper", Package::SwedishUpper),
        ("symbols.astro.basic", Package::SymbolsAstroBasic),
        ("symbols.music.basic", Package::SymbolsMusicBasic),
        ("syriac.core", Package::SyriacCore),
        ("tamil.core", Package::TamilCore),
        ("telugu.core", Package::TeluguCore),
        ("thaana.core", Package::ThaanaCore),
        ("thai.core", Package::ThaiCore),
        ("tibetan.core", Package::TibetanCore),
        ("turkish_azeri.lower", Package::TurkishAzeriLower),
        ("turkish_azeri.upper", Package::TurkishAzeriUpper),
        ("vietnamese.lower", Package::VietnameseLower),
        ("vietnamese.upper", Package::VietnameseUpper),
        ("welsh.lower", Package::WelshLower),
        ("welsh.upper", Package::WelshUpper),
        ("yoruba.lower", Package::YorubaLower),
        ("yoruba.tones.lower", Package::YorubaTonesLower),
        ("yoruba.tones.upper", Package::YorubaTonesUpper),
        ("yoruba.upper", Package::YorubaUpper),
    ]
}

/// The position in [`package_name_table`] of a package's own name (its
/// first entry).
pub open spec fn package_slot(p: Package) -> int {
    match p {
        Package::ArabicCore => 0,
        Package::ArmenianCaps => 1,
        Package::ArmenianLower => 2,
        Package::BengaliCore => 3,
        Package::BraillePatterns => 4,
        Package::CreeCore => 5,
        Package::InuktitutCore => 6,
        Package::CherokeeSmall => 7,
        Package::CherokeeUpper => 8,
        Package::CyrillicBeCaps => 9,
        Package::CyrillicBeLower => 10,
        Package::CyrillicBgCaps => 11,
        Package::CyrillicBgLower => 12,
        Package::CyrillicMkCaps => 13,
        Package::CyrillicMkLower => 14,
        Package::CyrillicRuCaps => 15,
        Package::CyrillicRuLower => 16,
        Package::CyrillicSrMeCaps => 17,
        Package::CyrillicSrMeLower => 18,
        Package::CyrillicUkCaps => 19,
        Package::CyrillicUkLower => 20,
        Package::CzechLower => 21,
        Package::CzechUpper => 22,
        Package::DanishNorwegianLower => 23,
        Package::DanishNorwegianUpper => 24,
        Package::DevanagariCore => 25,
        Package::DigitsArabicIndic => 26,
        Package::DigitsAscii => 27,
        Package::DigitsBengali => 28,
        Package::DigitsDevanagari => 29,
        Package::DigitsExtendedArabicIndic => 30,
        Package::DigitsGujarati => 31,
        Package::DigitsGurmukhi => 32,
        Package::DigitsKannada => 33,
        Package::DigitsKhmer => 34,
        Package::DigitsLao => 35,
        Package::DigitsMalayalam => 36,
        Package::DigitsMyanmar => 37,
        Package::DigitsOdia => 38,
        Package::DigitsSinhala => 39,
        Package::DigitsSubscriptCore => 40,
        Package::DigitsSuperscriptCore => 41,
        Package::DigitsTamil => 42,
        Package::DigitsTelugu => 43,
        Package::DigitsThai => 44,
        Package::DigitsTibetan => 45,
        Package::EsperantoLower => 46,
        Package::EsperantoUpper => 47,
        Package::EthiopicCore => 48,
        Package::FrenchAccentsLower => 49,
        Package::FrenchAccentsUpper => 50,
        Package::GaelicLower => 51,
        Package::GaelicUpper => 52,
        Package::GeorgianMkhedruli => 53,
        Package::GeorgianMtavruli => 54,
        Package::GermanExtrasLower => 55,
        Package::GermanExtrasUpper => 56,
        Package::GreekCaps => 57,
        Package::GreekLowerBase => 58,
        Package::GreekMonotonicMarksLower => 59,
        Package::GreekMonotonicMarksUpper => 60,
        Package::GreenlandicLower => 61,
        Package::GreenlandicUpper => 62,
        Package::GujaratiCore => 63,
        Package::GurmukhiCore => 64,
        Package::HangulJamoL => 66,
        Package::HangulJamoT => 67,
        Package::HangulJamoV => 68,
        Package::HangulJamoAll => 69,
        Package::HawaiianCoreLower => 70,
        Package::HawaiianCoreUpper => 71,
        Package::HawaiianOkina => 72,
        Package::Hebrew => 73,
        Package::HungarianLower => 74,
        Package::HungarianUpper => 75,
        Package::IcelandicLower => 76,
        Package::IcelandicUpper => 77,
        Package::ItalianCoreLower => 78,
        Package::ItalianCoreUpper => 79,
        Package::Hiragana => 80,
        Package::Katakana => 81,
        Package::KannadaCore => 82,
        Package::KhmerCore => 83,
        Package::KikuyuLower => 84,
        Package::KikuyuUpper => 85,
        Package::LaoCore => 86,
        Package::LatinAfricanLower => 87,
        Package::LatinAfricanUpper => 88,
        Package::LatinAsciiLower => 89,
        Package::LatinAsciiUpper => 90,
        Package::LatinClicks => 91,
        Package::LatinDigraphsAll => 92,
        Package::LatinDigraphsCatalan => 93,
        Package::LatinDigraphsCommon => 94,
        Package::LatinDigraphsMaltese => 95,
        Package::LatinExtendedOgonekLower => 96,
        Package::LatinExtendedOgonekUpper => 97,
        Package::LatinIpaCore => 98,
        Package::LatinIpaModifiers => 99,
        Package::LatinLigaturesLower => 100,
        Package::LatinLigaturesUpper => 101,
        Package::LatinPinyinLower => 102,
        Package::LatinPinyinUpper => 103,
        Package::LatinSalishLower => 104,
        Package::LatinSalishUpper => 105,
        Package::LatinSmallCapsExtended => 106,
        Package::LatvianLower => 107,
        Package::LatvianUpper => 108,
        Package::LithuanianLower => 109,
        Package::LithuanianUpper => 110,
        Package::MalayalamCore => 111,
        Package::MalteseLower => 112,
        Package::MalteseUpper => 113,
        Package::MathAlgebraCore => 114,
        Package::MathArabicNumericSymbols => 115,
        Package::MathArrowsBasic => 116,
        Package::MathArrowsExtended => 117,
        Package::MathBasicArithmetic => 118,
        Package::MathCalculusCore => 119,
        Package::MathDelimitersExtended => 120,
        Package::MathDoubleStruckSets => 121,
        Package::MathFullwidthBasicEastAsian => 122,
        Package::MathLogicCore => 123,
        Package::MathOperatorsExtended => 124,
        Package::MathSetRelations => 125,
        Package::MathTypographicVariants => 126,
        Package::MyanmarCore => 127,
        Package::OdiaCore => 128,
        Package::PersianUrduExtras => 129,
        Package::PolishLower => 130,
        Package::PolishUpper => 131,
        Package::PortugueseCoreLower => 132,
        Package::PortugueseCoreUpper => 133,
        Package::PunctuationArabicCore => 134,
        Package::PunctuationDashesAll => 135,
        Package::PunctuationDashesBasic => 136,
        Package::PunctuationDashesExtended => 137,
        Package::PunctuationDevanagariCore => 138,
        Package::PunctuationGreekAnoTeleia => 139,
        Package::PunctuationHebrewCore => 140,
        Package::PunctuationJapaneseCore => 141,
        Package::PunctuationKhmerCore => 142,
        Package::PunctuationLaoCore => 143,
        Package::PunctuationMyanmarCore => 144,
        Package::PunctuationSentenceBasicLatin => 145,
        Package::PunctuationSpanishExtras => 146,
        Package::PunctuationThaiCore => 147,
        Package::PunctuationTibetanCore => 148,
        Package::PunctuationUnderscoreBasic => 149,
        Package::PunctuationUnderscoreExtended => 150,
        Package::PunctuationWordBasicLatin => 151,
        Package::PunctuationCurrencyExtended => 152,
        Package::PunctuationLetterlikeSymbols => 153,
        Package::PunctuationPrimesBasic => 154,
        Package::PunctuationSectionsBasic => 155,
        Package::RomanianLegacyCedillaLower => 156,
        Package::RomanianLegacyCedillaUpper => 157,
        Package::RomanianLower => 158,
        Package::RomanianUpper => 159,
        Package::SinhalaCore => 160,
        Package::SlovakLower => 161,
        Package::SlovakUpper => 162,
        Package::SloveneBCSLower => 163,
        Package::SloveneBCSUpper => 164,
        Package::SpanishCoreLower => 165,
        Package::SpanishCoreUpper => 166,
        Package::SwedishLower => 167,
        Package::SwedishUpper => 168,
        Package::SymbolsAstroBasic => 169,
        Package::SymbolsMusicBasic => 170,
        Package::SyriacCore => 171,
        Package::TamilCore => 172,
        Package::TeluguCore => 173,
        Package::ThaanaCore => 174,
        Package::ThaiCore => 175,
        Package::TibetanCore => 176,
        Package::TurkishAzeriLower => 177,
        Package::TurkishAzeriUpper => 178,
        Package::VietnameseLower => 179,
        Package::VietnameseUpper => 180,
        Package::WelshLower => 181,
        Package::WelshUpper => 182,
        Package::YorubaLower => 183,
        Package::YorubaTonesLower => 184,
        Package::YorubaTonesUpper => 185,
        Package::YorubaUpper => 186,
    }
}

/// Position of the one extra name in the table, an alias.
pub open spec fn alias_slot() -> int {
    65
}

/// The views of the names in the package name table.
pub open spec fn package_name_views() -> Seq<Seq<char>> {
    Seq::new(package_name_table().len(), |k: int| package_name_table()[k].0@)
}

proof fn lemma_names_ordered_0()
    ensures
        forall|k: int| 0 <= k < 16 ==> char_seq_lt(#[trigger] package_name_views()[k], package_name_views()[k + 1]),
{
    reveal_strlit("arabic.core");
    reveal_strlit("armenian.caps");
    reveal_strlit("armenian.lower");
    reveal_strlit("bengali.core");
    reveal_strlit("braille.patterns");
    reveal_strlit("cas.cree.core");
    reveal_strlit("cas.inuktitut.core");
    reveal_strlit("cherokee.small");
    reveal_strlit("cherokee.upper");
    reveal_strlit("cyr.be.caps");
    reveal_strlit("cyr.be.lower");
    reveal_strlit("cyr.bg.caps");
    reveal_strlit("cyr.bg.lower");
    reveal_strlit("cyr.mk.caps");
    reveal_strlit("cyr.mk.lower");
    reveal_strlit("cyr.ru.caps");
    reveal_strlit("cyr.ru.lower");
    assert forall|k: int| 0 <= k < 16 implies char_seq_lt(#[trigger] package_name_views()[k], package_name_views()[k + 1]) by {
        if k == 0 {
            assert(char_seq_lt("arabic.core"@, "armenian.caps"@)) by {
                reveal_with_fuel(char_seq_lt, 4);
            }
        } else if k == 1 {
            assert(char_seq_lt("armenian.caps"@, "armenian.lower"@)) by {
                reveal_with_fuel(char_seq_lt, 11);
            }
        } else if k == 2 {
            assert(char_seq_lt("armenian.lower"@, "bengali.core"@)) by {
                reveal_with_fuel(char_seq_lt, 2);
            }
        } else if k == 3 {
            assert(char_seq_lt("bengali.core"@, "braille.patterns"@)) by {
                reveal_with_fuel(char_seq_lt, 3);
            }
        } else if k == 4 {
            assert(char_seq_lt("braille.patterns"@, "cas.cree.core"@)) by {
                reveal_with_fuel(char_seq_lt, 2);
            }
        } else if k == 5 {
            assert(char_seq_lt("cas.cree.core"@, "cas.inuktitut.core"@)) by {
                reveal_with_fuel(char_seq_lt, 6);
            }
        } else if k == 6 {
            assert(char_seq_lt("cas.inuktitut.core"@, "cherokee.small"@)) by {
                reveal_with_fuel(char_seq_lt, 3);
            }
        } else if k == 7 {
            assert(char_seq_lt("cherokee.small"@, "cherokee.upper"@)) by {
                reveal_with_fuel(char_seq_lt, 11);
            }
        } else if k == 8 {
            assert(char_seq_lt("cherokee.upper"@, "cyr.be.caps"@)) by {
                reveal_with_fuel(char_seq_lt, 3);
            }
        } else if k == 9 {
            assert(char_seq_lt("cyr.be.caps"@, "cyr.be.lower"@)) by {
                reveal_with_fuel(char_seq_lt, 9);
            }
        } else if k == 10 {
            assert(char_seq_lt("cyr.be.lower"@, "cyr.bg.caps"@)) by {
                reveal_with_fuel(char_seq_lt, 7);
            }
        } else if k == 11 {
            assert(char_seq_lt("cyr.bg.caps"@, "cyr.bg.lower"@)) by {
                reveal_with_fuel(char_seq_lt, 9);
            }
        } else if k == 12 {
            assert(char_seq_lt("cyr.bg.lower"@, "cyr.mk.caps"@)) by {
                reveal_with_fuel(char_seq_lt, 6);
            }
        } else if k == 13 {
            assert(char_seq_lt("cyr.mk.caps"@, "cyr.mk.lower"@)) by {
                reveal_with_fuel(char_seq_lt, 9);
            }
        } else if k == 14 {
            assert(char_seq_lt("cyr.mk.lower"@, "cyr.ru.caps"@)) by {
                reveal_with_fuel(char_seq_lt, 6);
            }
        } else if k == 15 {
            assert(char_seq_lt("cyr.ru.caps"@, "cyr.ru.lower"@)) by {
                reveal_with_fuel(char_seq_lt, 9);
            }
        }
    }
}

proof fn lemma_names_ordered_16()
    ensures
        forall|k: int| 16 <= k < 32 ==> char_seq_lt(#[trigger] package_name_views()[k], package_name_views()[k + 1]),
{
    reveal_strlit("cyr.ru.lower");
    reveal_strlit("cyr.srme.caps");
    reveal_strlit("cyr.srme.lower");
    reveal_strlit("cyr.uk.caps");
    reveal_strlit("cyr.uk.lower");
    reveal_strlit("czech.lower");
    reveal_strlit("czech.upper");
    reveal_strlit("danish_norwegian.lower");
    reveal_strlit("danish_norwegian.upper");
    reveal_strlit("devanagari.core");
    reveal_strlit("digits.arabic_indic");
    reveal_strlit("digits.ascii");
    reveal_strlit("digits.bengali");
    reveal_strlit("digits.devanagari");
    reveal_strlit("digits.extended_arabic_indic");
    reveal_strlit("digits.gujarati");
    reveal_strlit("digits.gurmukhi");
    assert forall|k: int| 16 <= k < 32 implies char_seq_lt(#[trigger] package_name_views()[k], package_name_views()[k + 1]) by {
        if k == 16 {
            assert(char_seq_lt("cyr.ru.lower"@, "cyr.srme.caps"@)) by {
                reveal_with_fuel(char_seq_lt, 6);
            }
        } else if k == 17 {
            assert(char_seq_lt("cyr.srme.caps"@, "cyr.srme.lower"@)) by {
                reveal_with_fuel(char_seq_lt, 11);
            }
        } else if k == 18 {
            assert(char_seq_lt("cyr.srme.lower"@, "cyr.uk.caps"@)) by {
                reveal_with_fuel(char_seq_lt, 6);
            }
        } else if k == 19 {
            assert(char_seq_lt("cyr.uk.caps"@, "cyr.uk.lower"@)) by {
                reveal_with_fuel(char_seq_lt, 9);
            }
        } else if k == 20 {
            assert(char_seq_lt("cyr.uk.lower"@, "czech.lower"@)) by {
                reveal_with_fuel(char_seq_lt, 3);
            }
        } else if k == 21 {
            assert(char_seq_lt("czech.lower"@, "czech.upper"@)) by {
                reveal_with_fuel(char_seq_lt, 8);
            }
        } else if k == 22 {
            assert(char_seq_lt("czech.upper"@, "danish_norwegian.lower"@)) by {
                reveal_with_fuel(char_seq_lt, 2);
            }
        } else if k == 23 {
            assert(char_seq_lt("danish_norwegian.lower"@, "danish_norwegian.upper"@)) by {
                reveal_with_fuel(char_seq_lt, 19);
            }
        } else if k == 24 {
            assert(char_seq_lt("danish_norwegian.upper"@, "devanagari.core"@)) by {
                reveal_with_fuel(char_seq_lt, 3);
            }
        } else if k == 25 {
            assert(char_seq_lt("devanagari.core"@, "digits.arabic_indic"@)) by {
                reveal_with_fuel(char_seq_lt, 3);
            }
        } else if k == 26 {
            assert(char_seq_lt("digits.arabic_indic"@, "digits.ascii"@)) by {
                reveal_with_fuel(char_seq_lt, 10);
            }
        } else if k == 27 {
            assert(char_seq_lt("digits.ascii"@, "digits.bengali"@)) by {
                reveal_with_fuel(char_seq_lt, 9);
            }
        } else if k == 28 {
            assert(char_seq_lt("digits.bengali"@, "digits.devanagari"@)) by {
                reveal_with_fuel(char_seq_lt, 9);
            }
        } else if k == 29 {
            assert(char_seq_lt("digits.devanagari"@, "digits.extended_arabic_indic"@)) by {
                reveal_with_fuel(char_seq_lt, 9);
            }
        } else if k == 30 {
            assert(char_seq_lt("digits.extended_arabic_indic"@, "digits.gujarati"@)) by {
                reveal_with_fuel(char_seq_lt, 9);
            }
        } else if k == 31 {
            assert(char_seq_lt("digits.gujarati"@, "digits.gurmukhi"@)) by {
                reveal_with_fuel(char_seq_lt, 11);
            }
        }
    }
}

proof fn lemma_names_ordered_32()
    ensures
        forall|k: int| 32 <= k < 48 ==> char_seq_lt(#[trigger] package_name_views()[k], package_name_views()[k + 1]),
{
    reveal_strlit("digits.gurmukhi");
    reveal_strlit("digits.kannada");
    reveal_strlit("digits.khmer");
    reveal_strlit("digits.lao");
    reveal_strlit("digits.malayalam");
    reveal_strlit("digits.myanmar");
    reveal_strlit("digits.odia");
    reveal_strlit("digits.sinhala");
    reveal_strlit("digits.subscript.core");
    reveal_strlit("digits.superscript.core");
    reveal_strlit("digits.tamil");
    reveal_strlit("digits.telugu");
    reveal_strlit("digits.thai");
    reveal_strlit("digits.tibetan");
    reveal_strlit("esperanto.lower");
    reveal_strlit("esperanto.upper");
    reveal_strlit("ethiopic.core");
    assert forall|k: int| 32 <= k < 48 implies char_seq_lt(#[trigger] package_name_views()[k], package_name_views()[k + 1]) by {
        if k == 32 {
            assert(char_seq_lt("digits.gurmukhi"@, "digits.kannada"@)) by {
                reveal_with_fuel(char_seq_lt, 9);
            }
        } else if k == 33 {
            assert(char_seq_lt("digits.kannada"@, "digits.khmer"@)) by {
                reveal_with_fuel(char_seq_lt, 10);
            }
        } else if k == 34 {
            assert(char_seq_lt("digits.khmer"@, "digits.lao"@)) by {
                reveal_with_fuel(char_seq_lt, 9);
            }
        } else if k == 35 {
            assert(char_seq_lt("digits.lao"@, "digits.malayalam"@)) by {
                reveal_with_fuel(char_seq_lt, 9);
            }
        } else if k == 36 {
            assert(char_seq_lt("digits.malayalam"@, "digits.myanmar"@)) by {
                reveal_with_fuel(char_seq_lt, 10);
            }
        } else if k == 37 {
            assert(char_seq_lt("digits.myanmar"@, "digits.odia"@)) by {
                reveal_with_fuel(char_seq_lt, 9);
            }
        } else if k == 38 {
            assert(char_seq_lt("digits.odia"@, "digits.sinhala"@)) by {
                reveal_with_fuel(char_seq_lt, 9);
            }
        } else if k == 39 {
            assert(char_seq_lt("digits.sinhala"@, "digits.subscript.core"@)) by {
                reveal_with_fuel(char_seq_lt, 10);
            }
        } else if k == 40 {
            assert(char_seq_lt("digits.subscript.core"@, "digits.superscript.core"@)) by {
                reveal_with_fuel(char_seq_lt, 11);
            }
        } else if k == 41 {
            assert(char_seq_lt("digits.superscript.core"@, "digits.tamil"@)) by {
                reveal_with_fuel(char_seq_lt, 9);
            }
        } else if k == 42 {
            assert(char_seq_lt("digits.tamil"@, "digits.telugu"@)) by {
                reveal_with_fuel(char_seq_lt, 10);
            }
        } else if k == 43 {
            assert(char_seq_lt("digits.telugu"@, "digits.thai"@)) by {
                reveal_with_fuel(char_seq_lt, 10);
            }
        } else if k == 44 {
            assert(char_seq_lt("digits.thai"@, "digits.tibetan"@)) by {
                reveal_with_fuel(char_seq_lt, 10);
            }
        } else if k == 45 {
            assert(char_seq_lt("digits.tibetan"@, "esperanto.lower"@)) by {
                reveal_with_fuel(char_seq_lt, 2);
            }
        } else if k == 46 {
            assert(char_seq_lt("esperanto.lower"@, "esperanto.upper"@)) by {
                reveal_with_fuel(char_seq_lt, 12);
            }
        } else if k == 47 {
            assert(char_seq_lt("esperanto.upper"@, "ethiopic.core"@)) by {
                reveal_with_fuel(char_seq_lt, 3);
            }
        }
    }
}

proof fn lemma_names_ordered_48()
    ensures
        forall|k: int| 48 <= k < 64 ==> char_seq_lt(#[trigger] package_name_views()[k], package_name_views()[k + 1]),
{
    reveal_strlit("ethiopic.core");
    reveal_strlit("french.accents.lower");
    reveal_strlit("french.accents.upper");
    reveal_strlit("gaelic.lower");
    reveal_strlit("gaelic.upper");
    reveal_strlit("georgian.mkhedruli");
    reveal_strlit("georgian.mtavruli");
    reveal_strlit("german.extras.lower");
    reveal_strlit("german.extras.upper");
    reveal_strlit("greek.caps");
    reveal_strlit("greek.lower.base");
    reveal_strlit("greek.monotonic.marks.lower");
    reveal_strlit("greek.monotonic.marks.upper");
    reveal_strlit("greenlandic.lower");
    reveal_strlit("greenlandic.upper");
    reveal_strlit("gujarati.core");
    reveal_strlit("gurmukhi.core");
    assert forall|k: int| 48 <= k < 64 implies char_seq_lt(#[trigger] package_name_views()[k], package_name_views()[k + 1]) by {
        if k == 48 {
            assert(char_seq_lt("ethiopic.core"@, "french.accents.lower"@)) by {
                reveal_with_fuel(char_seq_lt, 2);
            }
        } else if k == 49 {
            assert(char_seq_lt("french.accents.lower"@, "french.accents.upper"@)) by {
                reveal_with_fuel(char_seq_lt, 17);
            }
        } else if k == 50 {
            assert(char_seq_lt("french.accents.upper"@, "gaelic.lower"@)) by {
                reveal_with_fuel(char_seq_lt, 2);
            }
        } else if k == 51 {
            assert(char_seq_lt("gaelic.lower"@, "gaelic.upper"@)) by {
                reveal_with_fuel(char_seq_lt, 9);
            }
        } else if k == 52 {
            assert(char_seq_lt("gaelic.upper"@, "georgian.mkhedruli"@)) by {
                reveal_with_fuel(char_seq_lt, 3);
            }
        } else if k == 53 {
            assert(char_seq_lt("georgian.mkhedruli"@, "georgian.mtavruli"@)) by {
                reveal_with_fuel(char_seq_lt, 12);
            }
        } else if k == 54 {
            assert(char_seq_lt("georgian.mtavruli"@, "german.extras.lower"@)) by {
                reveal_with_fuel(char_seq_lt, 4);
            }
        } else if k == 55 {
            assert(char_seq_lt("german.extras.lower"@, "german.extras.upper"@)) by {
                reveal_with_fuel(char_seq_lt, 16);
            }
        } else if k == 56 {
            assert(char_seq_lt("german.extras.upper"@, "greek.caps"@)) by {
                reveal_with_fuel(char_seq_lt, 3);
            }
        } else if k == 57 {
            assert(char_seq_lt("greek.caps"@, "greek.lower.base"@)) by {
                reveal_with_fuel(char_seq_lt, 8);
            }
        } else if k == 58 {
            assert(char_seq_lt("greek.lower.base"@, "greek.monotonic.marks.lower"@)) by {
                reveal_with_fuel(char_seq_lt, 8);
            }
        } else if k == 59 {
            assert(char_seq_lt("greek.monotonic.marks.lower"@, "greek.monotonic.marks.upper"@)) by {
                reveal_with_fuel(char_seq_lt, 24);
            }
        } else if k == 60 {
            assert(char_seq_lt("greek.monotonic.marks.upper"@, "greenlandic.lower"@)) by {
                reveal_with_fuel(char_seq_lt, 6);
            }
        } else if k == 61 {
            assert(char_seq_lt("greenlandic.lower"@, "greenlandic.upper"@)) by {
                reveal_with_fuel(char_seq_lt, 14);
            }
        } else if k == 62 {
            assert(char_seq_lt("greenlandic.upper"@, "gujarati.core"@)) by {
                reveal_with_fuel(char_seq_lt, 3);
            }
        } else if k == 63 {
            assert(char_seq_lt("gujarati.core"@, "gurmukhi.core"@)) by {
                reveal_with_fuel(char_seq_lt, 4);
            }
        }
    }
}

proof fn lemma_names_ordered_64()
    ensures
        forall|k: int| 64 <= k < 80 ==> char_seq_lt(#[trigger] package_name_views()[k], package_name_views()[k + 1]),
{
    reveal_strlit("gurmukhi.core");
    reveal_strlit("hangul.jamo");
    reveal_strlit("hangul.jamo.L");
    reveal_strlit("hangul.jamo.T");
    reveal_strlit("hangul.jamo.V");
    reveal_strlit("hangul.jamo.all");
    reveal_strlit("hawaiian.core.lower");
    reveal_strlit("hawaiian.core.upper");
    reveal_strlit("hawaiian.okina");
    reveal_strlit("hebrew.core");
    reveal_strlit("hungarian.lower");
    reveal_strlit("hungarian.upper");
    reveal_strlit("icelandic.lower");
    reveal_strlit("icelandic.upper");
    reveal_strlit("italian.core.lower");
    reveal_strlit("italian.core.upper");
    reveal_strlit("kana.hiragana");
    assert forall|k: int| 64 <= k < 80 implies char_seq_lt(#[trigger] package_name_views()[k], package_name_views()[k + 1]) by {
        if k == 64 {
            assert(char_seq_lt("gurmukhi.core"@, "hangul.jamo"@)) by {
                reveal_with_fuel(char_seq_lt, 2);
            }
        } else if k == 65 {
            assert(char_seq_lt("hangul.jamo"@, "hangul.jamo.L"@)) by {
                reveal_with_fuel(char_seq_lt, 13);
            }
        } else if k == 66 {
            assert(char_seq_lt("hangul.jamo.L"@, "hangul.jamo.T"@)) by {
                reveal_with_fuel(char_seq_lt, 14);
            }
        } else if k == 67 {
            assert(char_seq_lt("hangul.jamo.T"@, "hangul.jamo.V"@)) by {
                reveal_with_fuel(char_seq_lt, 14);
            }
        } else if k == 68 {
            assert(char_seq_lt("hangul.jamo.V"@, "hangul.jamo.all"@)) by {
                reveal_with_fuel(char_seq_lt, 14);
            }
        } else if k == 69 {
            assert(char_seq_lt("hangul.jamo.all"@, "hawaiian.core.lower"@)) by {
                reveal_with_fuel(char_seq_lt, 4);
            }
        } else if k == 70 {
            assert(char_seq_lt("hawaiian.core.lower"@, "hawaiian.core.upper"@)) by {
                reveal_with_fuel(char_seq_lt, 16);
            }
        } else if k == 71 {
            assert(char_seq_lt("hawaiian.core.upper"@, "hawaiian.okina"@)) by {
                reveal_with_fuel(char_seq_lt, 11);
            }
        } else if k == 72 {
            assert(char_seq_lt("hawaiian.okina"@, "hebrew.core"@)) by {
                reveal_with_fuel(char_seq_lt, 3);
            }
        } else if k == 73 {
            assert(char_seq_lt("hebrew.core"@, "hungarian.lower"@)) by {
                reveal_with_fuel(char_seq_lt, 3);
            }
        } else if k == 74 {
            assert(char_seq_lt("hungarian.lower"@, "hungarian.upper"@)) by {
                reveal_with_fuel(char_seq_lt, 12);
            }
        } else if k == 75 {
            assert(char_seq_lt("hungarian.upper"@, "icelandic.lower"@)) by {
                reveal_with_fuel(char_seq_lt, 2);
            }
        } else if k == 76 {
            assert(char_seq_lt("icelandic.lower"@, "icelandic.upper"@)) by {
                reveal_with_fuel(char_seq_lt, 12);
            }
        } else if k == 77 {
            assert(char_seq_lt("icelandic.upper"@, "italian.core.lower"@)) by {
                reveal_with_fuel(char_seq_lt, 3);
            }
        } else if k == 78 {
            assert(char_seq_lt("italian.core.lower"@, "italian.core.upper"@)) by {
                reveal_with_fuel(char_seq_lt, 15);
            }
        } else if k == 79 {
            assert(char_seq_lt("italian.core.upper"@, "kana.hiragana"@)) by {
                reveal_with_fuel(char_seq_lt, 2);
            }
        }
    }
}

proof fn lemma_names_ordered_80()
    ensures
        forall|k: int| 80 <= k < 96 ==> char_seq_lt(#[trigger] package_name_views()[k], package_name_views()[k + 1]),
{
    reveal_strlit("kana.hiragana");
    reveal_strlit("kana.katakana");
    reveal_strlit("kannada.core");
    reveal_strlit("khmer.core");
    reveal_strlit("kikuyu.lower");
    reveal_strlit("kikuyu.upper");
    reveal_strlit("lao.core");
    reveal_strlit("latin.african.lower");
    reveal_strlit("latin.african.upper");
    reveal_strlit("latin.ascii.lower");
    reveal_strlit("latin.ascii.upper");
    reveal_strlit("latin.clicks");
    reveal_strlit("latin.digraphs.all");
    reveal_strlit("latin.digraphs.catalan");
    reveal_strlit("latin.digraphs.common");
    reveal_strlit("latin.digraphs.maltese");
    reveal_strlit("latin.extended.ogonek.lower");
    assert forall|k: int| 80 <= k < 96 implies char_seq_lt(#[trigger] package_name_views()[k], package_name_views()[k + 1]) by {
        if k == 80 {
            assert(char_seq_lt("kana.hiragana"@, "kana.katakana"@)) by {
                reveal_with_fuel(char_seq_lt, 7);
            }
        } else if k == 81 {
            assert(char_seq_lt("kana.katakana"@, "kannada.core"@)) by {
                reveal_with_fuel(char_seq_lt, 5);
            }
        } else if k == 82 {
            assert(char_seq_lt("kannada.core"@, "khmer.core"@)) by {
                reveal_with_fuel(char_seq_lt, 3);
            }
        } else if k == 83 {
            assert(char_seq_lt("khmer.core"@, "kikuyu.lower"@)) by {
                reveal_with_fuel(char_seq_lt, 3);
            }
        } else if k == 84 {
            assert(char_seq_lt("kikuyu.lower"@, "kikuyu.upper"@)) by {
                reveal_with_fuel(char_seq_lt, 9);
            }
        } else if k == 85 {
            assert(char_seq_lt("kikuyu.upper"@, "lao.core"@)) by {
                reveal_with_fuel(char_seq_lt, 2);
            }
        } else if k == 86 {
            assert(char_seq_lt("lao.core"@, "latin.african.lower"@)) by {
                reveal_with_fuel(char_seq_lt, 4);
            }
        } else if k == 87 {
            assert(char_seq_lt("latin.african.lower"@, "latin.african.upper"@)) by {
                reveal_with_fuel(char_seq_lt, 16);
            }
        } else if k == 88 {
            assert(char_seq_lt("latin.african.upper"@, "latin.ascii.lower"@)) by {
                reveal_with_fuel(char_seq_lt, 9);
            }
        } else if k == 89 {
            assert(char_seq_lt("latin.ascii.lower"@, "latin.ascii.upper"@)) by {
                reveal_with_fuel(char_seq_lt, 14);
            }
        } else if k == 90 {
            assert(char_seq_lt("latin.ascii.upper"@, "latin.clicks"@)) by {
                reveal_with_fuel(char_seq_lt, 8);
            }
        } else if k == 91 {
            assert(char_seq_lt("latin.clicks"@, "latin.digraphs.all"@)) by {
                reveal_with_fuel(char_seq_lt, 8);
            }
        } else if k == 92 {
            assert(char_seq_lt("latin.digraphs.all"@, "latin.digraphs.catalan"@)) by {
                reveal_with_fuel(char_seq_lt, 17);
            }
        } else if k == 93 {
            assert(char_seq_lt("latin.digraphs.catalan"@, "latin.digraphs.common"@)) by {
                reveal_with_fuel(char_seq_lt, 18);
            }
        } else if k == 94 {
            assert(char_seq_lt("latin.digraphs.common"@, "latin.digraphs.maltese"@)) by {
                reveal_with_fuel(char_seq_lt, 17);
            }
        } else if k == 95 {
            assert(char_seq_lt("latin.digraphs.maltese"@, "latin.extended.ogonek.lower"@)) by {
                reveal_with_fuel(char_seq_lt, 8);
            }
        }
    }
}

proof fn lemma_names_ordered_96()
    ensures
        forall|k: int| 96 <= k < 112 ==> char_seq_lt(#[trigger] package_name_views()[k], package_name_views()[k + 1]),
{
    reveal_strlit("latin.extended.ogonek.lower");
    reveal_strlit("latin.extended.ogonek.upper");
    reveal_strlit("latin.ipa.core");
    reveal_strlit("latin.ipa.modifiers");
    reveal_strlit("latin.ligatures.lower");
    reveal_strlit("latin.ligatures.upper");
    reveal_strlit("latin.pinyin.lower");
    reveal_strlit("latin.pinyin.upper");
    reveal_strlit("latin.salish.lower");
    reveal_strlit("latin.salish.upper");
    reveal_strlit("latin.small.caps.extended");
    reveal_strlit("latvian.lower");
    reveal_strlit("latvian.upper");
    reveal_strlit("lithuanian.lower");
    reveal_strlit("lithuanian.upper");
    reveal_strlit("malayalam.core");
    reveal_strlit("maltese.lower");
    assert forall|k: int| 96 <= k < 112 implies char_seq_lt(#[trigger] package_name_views()[k], package_name_views()[k + 1]) by {
        if k == 96 {
            assert(char_seq_lt("latin.extended.ogonek.lower"@, "latin.extended.ogonek.upper"@)) by {
                reveal_with_fuel(char_seq_lt, 24);
            }
        } else if k == 97 {
            assert(char_seq_lt("latin.extended.ogonek.upper"@, "latin.ipa.core"@)) by {
                reveal_with_fuel(char_seq_lt, 8);
            }
        } else if k == 98 {
            assert(char_seq_lt("latin.ipa.core"@, "latin.ipa.modifiers"@)) by {
                reveal_with_fuel(char_seq_lt, 12);
            }
        } else if k == 99 {
            assert(char_seq_lt("latin.ipa.modifiers"@, "latin.ligatures.lower"@)) by {
                reveal_with_fuel(char_seq_lt, 8);
            }
        } else if k == 100 {
            assert(char_seq_lt("latin.ligatures.lower"@, "latin.ligatures.upper"@)) by {
                reveal_with_fuel(char_seq_lt, 18);
            }
        } else if k == 101 {
            assert(char_seq_lt("latin.ligatures.upper"@, "latin.pinyin.lower"@)) by {
                reveal_with_fuel(char_seq_lt, 8);
            }
        } else if k == 102 {
            assert(char_seq_lt("latin.pinyin.lower"@, "latin.pinyin.upper"@)) by {
                reveal_with_fuel(char_seq_lt, 15);
            }
        } else if k == 103 {
            assert(char_seq_lt("latin.pinyin.upper"@, "latin.salish.lower"@)) by {
                reveal_with_fuel(char_seq_lt, 8);
            }
        } else if k == 104 {
            assert(char_seq_lt("latin.salish.lower"@, "latin.salish.upper"@)) by {
                reveal_with_fuel(char_seq_lt, 15);
            }
        } else if k == 105 {
            assert(char_seq_lt("latin.salish.upper"@, "latin.small.caps.extended"@)) by {
                reveal_with_fuel(char_seq_lt, 9);
            }
        } else if k == 106 {
            assert(char_seq_lt("latin.small.caps.extended"@, "latvian.lower"@)) by {
                reveal_with_fuel(char_seq_lt, 5);
            }
        } else if k == 107 {
            assert(char_seq_lt("latvian.lower"@, "latvian.upper"@)) by {
                reveal_with_fuel(char_seq_lt, 10);
            }
        } else if k == 108 {
            assert(char_seq_lt("latvian.upper"@, "lithuanian.lower"@)) by {
                reveal_with_fuel(char_seq_lt, 3);
            }
        } else if k == 109 {
            assert(char_seq_lt("lithuanian.lower"@, "lithuanian.upper"@)) by {
                reveal_with_fuel(char_seq_lt, 13);
            }
        } else if k == 110 {
            assert(char_seq_lt("lithuanian.upper"@, "malayalam.core"@)) by {
                reveal_with_fuel(char_seq_lt, 2);
            }
        } else if k == 111 {
            assert(char_seq_lt("malayalam.core"@, "maltese.lower"@)) by {
                reveal_with_fuel(char_seq_lt, 5);
            }
        }
    }
}

proof fn lemma_names_ordered_112()
    ensures
        forall|k: int| 112 <= k < 128 ==> char_seq_lt(#[trigger] package_name_views()[k], package_name_views()[k + 1]),
{
    reveal_strlit("maltese.lower");
    reveal_strlit("maltese.upper");
    reveal_strlit("math.algebra_core");
    reveal_strlit("math.arabic.numeric_symbols");
    reveal_strlit("math.arrows.basic");
    reveal_strlit("math.arrows.extended");
    reveal_strlit("math.basic_arithmetic");
    reveal_strlit("math.calculus_core");
    reveal_strlit("math.delimiters.extended");
    reveal_strlit("math.double_struck.sets");
    reveal_strlit("math.fullwidth.basic_east_asian");
    reveal_strlit("math.logic_core");
    reveal_strlit("math.operators.extended");
    reveal_strlit("math.set_relations");
    reveal_strlit("math.typographic.variants");
    reveal_strlit("myanmar.core");
    reveal_strlit("odia.core");
    assert forall|k: int| 112 <= k < 128 implies char_seq_lt(#[trigger] package_name_views()[k], package_name_views()[k + 1]) by {
        if k == 112 {
            assert(char_seq_lt("maltese.lower"@, "maltese.upper"@)) by {
                reveal_with_fuel(char_seq_lt, 10);
            }
        } else if k == 113 {
            assert(char_seq_lt("maltese.upper"@, "math.algebra_core"@)) by {
                reveal_with_fuel(char_seq_lt, 4);
            }
        } else if k == 114 {
            assert(char_seq_lt("math.algebra_core"@, "math.arabic.numeric_symbols"@)) by {
                reveal_with_fuel(char_seq_lt, 8);
            }
        } else if k == 115 {
            assert(char_seq_lt("math.arabic.numeric_symbols"@, "math.arrows.basic"@)) by {
                reveal_with_fuel(char_seq_lt, 9);
            }
        } else if k == 116 {
            assert(char_seq_lt("math.arrows.basic"@, "math.arrows.extended"@)) by {
                reveal_with_fuel(char_seq_lt, 14);
            }
        } else if k == 117 {
            assert(char_seq_lt("math.arrows.extended"@, "math.basic_arithmetic"@)) by {
                reveal_with_fuel(char_seq_lt, 7);
            }
        } else if k == 118 {
            assert(char_seq_lt("math.basic_arithmetic"@, "math.calculus_core"@)) by {
                reveal_with_fuel(char_seq_lt, 7);
            }
        } else if k == 119 {
            assert(char_seq_lt("math.calculus_core"@, "math.delimiters.extended"@)) by {
                reveal_with_fuel(char_seq_lt, 7);
            }
        } else if k == 120 {
            assert(char_seq_lt("math.delimiters.extended"@, "math.double_struck.sets"@)) by {
                reveal_with_fuel(char_seq_lt, 8);
            }
        } else if k == 121 {
            assert(char_seq_lt("math.double_struck.sets"@, "math.fullwidth.basic_east_asian"@)) by {
                reveal_with_fuel(char_seq_lt, 7);
            }
        } else if k == 122 {
            assert(char_seq_lt("math.fullwidth.basic_east_asian"@, "math.logic_core"@)) by {
                reveal_with_fuel(char_seq_lt, 7);
            }
        } else if k == 123 {
            assert(char_seq_lt("math.logic_core"@, "math.operators.extended"@)) by {
                reveal_with_fuel(char_seq_lt, 7);
            }
        } else if k == 124 {
            assert(char_seq_lt("math.operators.extended"@, "math.set_relations"@)) by {
                reveal_with_fuel(char_seq_lt, 7);
            }
        } else if k == 125 {
            assert(char_seq_lt("math.set_relations"@, "math.typographic.variants"@)) by {
                reveal_with_fuel(char_seq_lt, 7);
            }
        } else if k == 126 {
            assert(char_seq_lt("math.typographic.variants"@, "myanmar.core"@)) by {
                reveal_with_fuel(char_seq_lt, 3);
            }
        } else if k == 127 {
            assert(char_seq_lt("myanmar.core"@, "odia.core"@)) by {
                reveal_with_fuel(char_seq_lt, 2);
            }
        }
    }
}

proof fn lemma_names_ordered_128()
    ensures
        forall|k: int| 128 <= k < 144 ==> char_seq_lt(#[trigger] package_name_views()[k], package_name_views()[k + 1]),
{
    reveal_strlit("odia.core");
    reveal_strlit("persian_urdu.extras");
    reveal_strlit("polish.lower");
    reveal_strlit("polish.upper");
    reveal_strlit("portuguese.core.lower");
    reveal_strlit("portuguese.core.upper");
    reveal_strlit("punct.arabic.core");
    reveal_strlit("punct.dashes.all");
    reveal_strlit("punct.dashes.basic");
    reveal_strlit("punct.dashes.extended");
    reveal_strlit("punct.devanagari.core");
    reveal_strlit("punct.greek.ano_teleia");
    reveal_strlit("punct.hebrew.core");
    reveal_strlit("punct.japanese.core");
    reveal_strlit("punct.khmer.core");
    reveal_strlit("punct.lao.core");
    reveal_strlit("punct.myanmar.core");
    assert forall|k: int| 128 <= k < 144 implies char_seq_lt(#[trigger] package_name_views()[k], package_name_views()[k + 1]) by {
        if k == 128 {
            assert(char_seq_lt("odia.core"@, "persian_urdu.extras"@)) by {
                reveal_with_fuel(char_seq_lt, 2);
            }
        } else if k == 129 {
            assert(char_seq_lt("persian_urdu.extras"@, "polish.lower"@)) by {
                reveal_with_fuel(char_seq_lt, 3);
            }
        } else if k == 130 {
            assert(char_seq_lt("polish.lower"@, "polish.upper"@)) by {
                reveal_with_fuel(char_seq_lt, 9);
            }
        } else if k == 131 {
            assert(char_seq_lt("polish.upper"@, "portuguese.core.lower"@)) by {
                reveal_with_fuel(char_seq_lt, 4);
            }
        } else if k == 132 {
            assert(char_seq_lt("portuguese.core.lower"@, "portuguese.core.upper"@)) by {
                reveal_with_fuel(char_seq_lt, 18);
            }
        } else if k == 133 {
            assert(char_seq_lt("portuguese.core.upper"@, "punct.arabic.core"@)) by {
                reveal_with_fuel(char_seq_lt, 3);
            }
        } else if k == 134 {
            assert(char_seq_lt("punct.arabic.core"@, "punct.dashes.all"@)) by {
                reveal_with_fuel(char_seq_lt, 8);
            }
        } else if k == 135 {
            assert(char_seq_lt("punct.dashes.all"@, "punct.dashes.basic"@)) by {
                reveal_with_fuel(char_seq_lt, 15);
            }
        } else if k == 136 {
            assert(char_seq_lt("punct.dashes.basic"@, "punct.dashes.extended"@)) by {
                reveal_with_fuel(char_seq_lt, 15);
            }
        } else if k == 137 {
            assert(char_seq_lt("punct.dashes.extended"@, "punct.devanagari.core"@)) by {
                reveal_with_fuel(char_seq_lt, 9);
            }
        } else if k == 138 {
            assert(char_seq_lt("punct.devanagari.core"@, "punct.greek.ano_teleia"@)) by {
                reveal_with_fuel(char_seq_lt, 8);
            }
        } else if k == 139 {
            assert(char_seq_lt("punct.greek.ano_teleia"@, "punct.hebrew.core"@)) by {
                reveal_with_fuel(char_seq_lt, 8);
            }
        } else if k == 140 {
            assert(char_seq_lt("punct.hebrew.core"@, "punct.japanese.core"@)) by {
                reveal_with_fuel(char_seq_lt, 8);
            }
        } else if k == 141 {
            assert(char_seq_lt("punct.japanese.core"@, "punct.khmer.core"@)) by {
                reveal_with_fuel(char_seq_lt, 8);
            }
        } else if k == 142 {
            assert(char_seq_lt("punct.khmer.core"@, "punct.lao.core"@)) by {
                reveal_with_fuel(char_seq_lt, 8);
            }
        } else if k == 143 {
            assert(char_seq_lt("punct.lao.core"@, "punct.myanmar.core"@)) by {
                reveal_with_fuel(char_seq_lt, 8);
            }
        }
    }
}

proof fn lemma_names_ordered_144()
    ensures
        forall|k: int| 144 <= k < 160 ==> char_seq_lt(#[trigger] package_name_views()[k], package_name_views()[k + 1]),
{
    reveal_strlit("punct.myanmar.core");
    reveal_strlit("punct.sentence.basic_latin");
    reveal_strlit("punct.spanish.extras");
    reveal_strlit("punct.thai.core");
    reveal_strlit("punct.tibetan.core");
    reveal_strlit("punct.underscore.basic");
    reveal_strlit("punct.underscore.extended");
    reveal_strlit("punct.word.basic_latin");
    reveal_strlit("punctuation.currency.extended");
    reveal_strlit("punctuation.letterlike.symbols");
    reveal_strlit("punctuation.primes.basic");
    reveal_strlit("punctuation.sections.basic");
    reveal_strlit("romanian.legacy.cedilla.lower");
    reveal_strlit("romanian.legacy.cedilla.upper");
    reveal_strlit("romanian.lower");
    reveal_strlit("romanian.upper");
    reveal_strlit("sinhala.core");
    assert forall|k: int| 144 <= k < 160 implies char_seq_lt(#[trigger] package_name_views()[k], package_name_views()[k + 1]) by {
        if k == 144 {
            assert(char_seq_lt("punct.myanmar.core"@, "punct.sentence.basic_latin"@)) by {
                reveal_with_fuel(char_seq_lt, 8);
            }
        } else if k == 145 {
            assert(char_seq_lt("punct.sentence.basic_latin"@, "punct.spanish.extras"@)) by {
                reveal_with_fuel(char_seq_lt, 9);
            }
        } else if k == 146 {
            assert(char_seq_lt("punct.spanish.extras"@, "punct.thai.core"@)) by {
                reveal_with_fuel(char_seq_lt, 8);
            }
        } else if k == 147 {
            assert(char_seq_lt("punct.thai.core"@, "punct.tibetan.core"@)) by {
                reveal_with_fuel(char_seq_lt, 9);
            }
        } else if k == 148 {
            assert(char_seq_lt("punct.tibetan.core"@, "punct.underscore.basic"@)) by {
                reveal_with_fuel(char_seq_lt, 8);
            }
        } else if k == 149 {
            assert(char_seq_lt("punct.underscore.basic"@, "punct.underscore.extended"@)) by {
                reveal_with_fuel(char_seq_lt, 19);
            }
        } else if k == 150 {
            assert(char_seq_lt("punct.underscore.extended"@, "punct.word.basic_latin"@)) by {
                reveal_with_fuel(char_seq_lt, 8);
            }
        } else if k == 151 {
            assert(char_seq_lt("punct.word.basic_latin"@, "punctuation.currency.extended"@)) by {
                reveal_with_fuel(char_seq_lt, 7);
            }
        } else if k == 152 {
            assert(char_seq_lt("punctuation.currency.extended"@, "punctuation.letterlike.symbols"@)) by {
                reveal_with_fuel(char_seq_lt, 14);
            }
        } else if k == 153 {
            assert(char_seq_lt("punctuation.letterlike.symbols"@, "punctuation.primes.basic"@)) by {
                reveal_with_fuel(char_seq_lt, 14);
            }
        } else if k == 154 {
            assert(char_seq_lt("punctuation.primes.basic"@, "punctuation.sections.basic"@)) by {
                reveal_with_fuel(char_seq_lt, 14);
            }
        } else if k == 155 {
            assert(char_seq_lt("punctuation.sections.basic"@, "romanian.legacy.cedilla.lower"@)) by {
                reveal_with_fuel(char_seq_lt, 2);
            }
        } else if k == 156 {
            assert(char_seq_lt("romanian.legacy.cedilla.lower"@, "romanian.legacy.cedilla.upper"@)) by {
                reveal_with_fuel(char_seq_lt, 26);
            }
        } else if k == 157 {
            assert(char_seq_lt("romanian.legacy.cedilla.upper"@, "romanian.lower"@)) by {
                reveal_with_fuel(char_seq_lt, 12);
            }
        } else if k == 158 {
            assert(char_seq_lt("romanian.lower"@, "romanian.upper"@)) by {
                reveal_with_fuel(char_seq_lt, 11);
            }
        } else if k == 159 {
            assert(char_seq_lt("romanian.upper"@, "sinhala.core"@)) by {
                reveal_with_fuel(char_seq_lt, 2);
            }
        }
    }
}

proof fn lemma_names_ordered_160()
    ensures
        forall|k: int| 160 <= k < 176 ==> char_seq_lt(#[trigger] package_name_views()[k], package_name_views()[k + 1]),
{
    reveal_strlit("sinhala.core");
    reveal_strlit("slovak.lower");
    reveal_strlit("slovak.upper");
    reveal_strlit("slovene_bcs.lower");
    reveal_strlit("slovene_bcs.upper");
    reveal_strlit("spanish.core.lower");
    reveal_strlit("spanish.core.upper");
    reveal_strlit("swedish.lower");
    reveal_strlit("swedish.upper");
    reveal_strlit("symbols.astro.basic");
    reveal_strlit("symbols.music.basic");
    reveal_strlit("syriac.core");
    reveal_strlit("tamil.core");
    reveal_strlit("telugu.core");
    reveal_strlit("thaana.core");
    reveal_strlit("thai.core");
    reveal_strlit("tibetan.core");
    assert forall|k: int| 160 <= k < 176 implies char_seq_lt(#[trigger] package_name_views()[k], package_name_views()[k + 1]) by {
        if k == 160 {
            assert(char_seq_lt("sinhala.core"@, "slovak.lower"@)) by {
                reveal_with_fuel(char_seq_lt, 3);
            }
        } else if k == 161 {
            assert(char_seq_lt("slovak.lower"@, "slovak.upper"@)) by {
                reveal_with_fuel(char_seq_lt, 9);
            }
        } else if k == 162 {
            assert(char_seq_lt("slovak.upper"@, "slovene_bcs.lower"@)) by {
                reveal_with_fuel(char_seq_lt, 6);
            }
        } else if k == 163 {
            assert(char_seq_lt("slovene_bcs.lower"@, "slovene_bcs.upper"@)) by {
                reveal_with_fuel(char_seq_lt, 14);
            }
        } else if k == 164 {
            assert(char_seq_lt("slovene_bcs.upper"@, "spanish.core.lower"@)) by {
                reveal_with_fuel(char_seq_lt, 3);
            }
        } else if k == 165 {
            assert(char_seq_lt("spanish.core.lower"@, "spanish.core.upper"@)) by {
                reveal_with_fuel(char_seq_lt, 15);
            }
        } else if k == 166 {
            assert(char_seq_lt("spanish.core.upper"@, "swedish.lower"@)) by {
                reveal_with_fuel(char_seq_lt, 3);
            }
        } else if k == 167 {
            assert(char_seq_lt("swedish.lower"@, "swedish.upper"@)) by {
                reveal_with_fuel(char_seq_lt, 10);
            }
        } else if k == 168 {
            assert(char_seq_lt("swedish.upper"@, "symbols.astro.basic"@)) by {
                reveal_with_fuel(char_seq_lt, 3);
            }
        } else if k == 169 {
            assert(char_seq_lt("symbols.astro.basic"@, "symbols.music.basic"@)) by {
                reveal_with_fuel(char_seq_lt, 10);
            }
        } else if k == 170 {
            assert(char_seq_lt("symbols.music.basic"@, "syriac.core"@)) by {
                reveal_with_fuel(char_seq_lt, 4);
            }
        } else if k == 171 {
            assert(char_seq_lt("syriac.core"@, "tamil.core"@)) by {
                reveal_with_fuel(char_seq_lt, 2);
            }
        } else if k == 172 {
            assert(char_seq_lt("tamil.core"@, "telugu.core"@)) by {
                reveal_with_fuel(char_seq_lt, 3);
            }
        } else if k == 173 {
            assert(char_seq_lt("telugu.core"@, "thaana.core"@)) by {
                reveal_with_fuel(char_seq_lt, 3);
            }
        } else if k == 174 {
            assert(char_seq_lt("thaana.core"@, "thai.core"@)) by {
                reveal_with_fuel(char_seq_lt, 5);
            }
        } else if k == 175 {
            assert(char_seq_lt("thai.core"@, "tibetan.core"@)) by {
                reveal_with_fuel(char_seq_lt, 3);
            }
        }
    }
}

proof fn lemma_names_ordered_176()
    ensures
        forall|k: int| 176 <= k < 186 ==> char_seq_lt(#[trigger] package_name_views()[k], package_name_views()[k + 1]),
{
    reveal_strlit("tibetan.core");
    reveal_strlit("turkish_azeri.lower");
    reveal_strlit("turkish_azeri.upper");
    reveal_strlit("vietnamese.lower");
    reveal_strlit("vietnamese.upper");
    reveal_strlit("welsh.lower");
    reveal_strlit("welsh.upper");
    reveal_strlit("yoruba.lower");
    reveal_strlit("yoruba.tones.lower");
    reveal_strlit("yoruba.tones.upper");
    reveal_strlit("yoruba.upper");
    assert forall|k: int| 176 <= k < 186 implies char_seq_lt(#[trigger] package_name_views()[k], package_name_views()[k + 1]) by {
        if k == 176 {
            assert(char_seq_lt("tibetan.core"@, "turkish_azeri.lower"@)) by {
                reveal_with_fuel(char_seq_lt, 3);
            }
        } else if k == 177 {
            assert(char_seq_lt("turkish_azeri.lower"@, "turkish_azeri.upper"@)) by {
                reveal_with_fuel(char_seq_lt, 16);
            }
        } else if k == 178 {
            assert(char_seq_lt("turkish_azeri.upper"@, "vietnamese.lower"@)) by {
                reveal_with_fuel(char_seq_lt, 2);
            }
        } else if k == 179 {
            assert(char_seq_lt("vietnamese.lower"@, "vietnamese.upper"@)) by {
                reveal_with_fuel(char_seq_lt, 13);
            }
        } else if k == 180 {
            assert(char_seq_lt("vietnamese.upper"@, "welsh.lower"@)) by {
                reveal_with_fuel(char_seq_lt, 2);
            }
        } else if k == 181 {
            assert(char_seq_lt("welsh.lower"@, "welsh.upper"@)) by {
                reveal_with_fuel(char_seq_lt, 8);
            }
        } else if k == 182 {
            assert(char_seq_lt("welsh.upper"@, "yoruba.lower"@)) by {
                reveal_with_fuel(char_seq_lt, 2);
            }
        } else if k == 183 {
            assert(char_seq_lt("yoruba.lower"@, "yoruba.tones.lower"@)) by {
                reveal_with_fuel(char_seq_lt, 9);
            }
        } else if k == 184 {
            assert(char_seq_lt("yoruba.tones.lower"@, "yoruba.tones.upper"@)) by {
                reveal_with_fuel(char_seq_lt, 15);
            }
        } else if k == 185 {
            assert(char_seq_lt("yoruba.tones.upper"@, "yoruba.upper"@)) by {
                reveal_with_fuel(char_seq_lt, 9);
            }
        }
    }
}

/// The names in the package name table are in increasing order, so no
/// name occurs twice.
pub proof fn lemma_package_names_sorted()
    ensures
        strictly_sorted(package_name_views()),
{
    lemma_names_ordered_0();
    lemma_names_ordered_16();
    lemma_names_ordered_32();
    lemma_names_ordered_48();
    lemma_names_ordered_64();
    lemma_names_ordered_80();
    lemma_names_ordered_96();
    lemma_names_ordered_112();
    lemma_names_ordered_128();
    lemma_names_ordered_144();
    lemma_names_ordered_160();
    lemma_names_ordered_176();
    lemma_neighbours_sorted(package_name_views());
}

/// Each entry of the name table but the alias sits at its package's slot.
pub proof fn lemma_slots_exact()
    ensures
        forall|k: int| 0 <= k < package_name_table().len() ==> k == alias_slot() || package_slot(
            #[trigger] package_name_table()[k].1,
        ) == k,
{
    assert forall|k: int| 0 <= k < package_name_table().len() implies k == alias_slot() || package_slot(
        #[trigger] package_name_table()[k].1,
    ) == k by {
        if k == 0 {
        } else if k == 1 {
        } else if k == 2 {
        } else if k == 3 {
        } else if k == 4 {
        } else if k == 5 {
        } else if k == 6 {
        } else if k == 7 {
        } else if k == 8 {
        } else if k == 9 {
        } else if k == 10 {
        } else if k == 11 {
        } else if k == 12 {
        } else if k == 13 {
        } else if k == 14 {
        } else if k == 15 {
        } else if k == 16 {
        } else if k == 17 {
        } else if k == 18 {
        } else if k == 19 {
        } else if k == 20 {
        } else if k == 21 {
        } else if k == 22 {
        } else if k == 23 {
        } else if k == 24 {
        } else if k == 25 {
        } else if k == 26 {
        } else if k == 27 {
        } else if k == 28 {
        } else if k == 29 {
        } else if k == 30 {
        } else if k == 31 {
        } else if k == 32 {
        } else if k == 33 {
        } else if k == 34 {
        } else if k == 35 {
        } else if k == 36 {
        } else if k == 37 {
        } else if k == 38 {
        } else if k == 39 {
        } else if k == 40 {
        } else if k == 41 {
        } else if k == 42 {
        } else if k == 43 {
        } else if k == 44 {
        } else if k == 45 {
        } else if k == 46 {
        } else if k == 47 {
        } else if k == 48 {
        } else if k == 49 {
        } else if k == 50 {
        } else if k == 51 {
        } else if k == 52 {
        } else if k == 53 {
        } else if k == 54 {
        } else if k == 55 {
        } else if k == 56 {
        } else if k == 57 {
        } else if k == 58 {
        } else if k == 59 {
        } else if k == 60 {
        } else if k == 61 {
        } else if k == 62 {
        } else if k == 63 {
        } else if k == 64 {
        } else if k == 65 {
        } else if k == 66 {
        } else if k == 67 {
        } else if k == 68 {
        } else if k == 69 {
        } else if k == 70 {
        } else if k == 71 {
        } else if k == 72 {
        } else if k == 73 {
        } else if k == 74 {
        } else if k == 75 {
        } else if k == 76 {
        } else if k == 77 {
        } else if k == 78 {
        } else if k == 79 {
        } else if k == 80 {
        } else if k == 81 {
        } else if k == 82 {
        } else if k == 83 {
        } else if k == 84 {
        } else if k == 85 {
        } else if k == 86 {
        } else if k == 87 {
        } else if k == 88 {
        } else if k == 89 {
        } else if k == 90 {
        } else if k == 91 {
        } else if k == 92 {
        } else if k == 93 {
        } else if k == 94 {
        } else if k == 95 {
        } else if k == 96 {
        } else if k == 97 {
        } else if k == 98 {
        } else if k == 99 {
        } else if k == 100 {
        } else if k == 101 {
        } else if k == 102 {
        } else if k == 103 {
        } else if k == 104 {
        } else if k == 105 {
        } else if k == 106 {
        } else if k == 107 {
        } else if k == 108 {
        } else if k == 109 {
        } else if k == 110 {
        } else if k == 111 {
        } else if k == 112 {
        } else if k == 113 {
        } else if k == 114 {
        } else if k == 115 {
        } else if k == 116 {
        } else if k == 117 {
        } else if k == 118 {
        } else if k == 119 {
        } else if k == 120 {
        } else if k == 121 {
        } else if k == 122 {
        } else if k == 123 {
        } else if k == 124 {
        } else if k == 125 {
        } else if k == 126 {
        } else if k == 127 {
        } else if k == 128 {
        } else if k == 129 {
        } else if k == 130 {
        } else if k == 131 {
        } else if k == 132 {
        } else if k == 133 {
        } else if k == 134 {
        } else if k == 135 {
        } else if k == 136 {
        } else if k == 137 {
        } else if k == 138 {
        } else if k == 139 {
        } else if k == 140 {
        } else if k == 141 {
        } else if k == 142 {
        } else if k == 143 {
        } else if k == 144 {
        } else if k == 145 {
        } else if k == 146 {
        } else if k == 147 {
        } else if k == 148 {
        } else if k == 149 {
        } else if k == 150 {
        } else if k == 151 {
        } else if k == 152 {
        } else if k == 153 {
        } else if k == 154 {
        } else if k == 155 {
        } else if k == 156 {
        } else if k == 157 {
        } else if k == 158 {
        } else if k == 159 {
        } else if k == 160 {
        } else if k == 161 {
        } else if k == 162 {
        } else if k == 163 {
        } else if k == 164 {
        } else if k == 165 {
        } else if k == 166 {
        } else if k == 167 {
        } else if k == 168 {
        } else if k == 169 {
        } else if k == 170 {
        } else if k == 171 {
        } else if k == 172 {
        } else if k == 173 {
        } else if k == 174 {
        } else if k == 175 {
        } else if k == 176 {
        } else if k == 177 {
        } else if k == 178 {
        } else if k == 179 {
        } else if k == 180 {
        } else if k == 181 {
        } else if k == 182 {
        } else if k == 183 {
        } else if k == 184 {
        } else if k == 185 {
        } else if k == 186 {
        }
    }
}

/// Every package is listed in the name table at its slot.
pub proof fn lemma_package_listed(p: Package)
    ensures
        0 <= package_slot(p) < package_name_table().len(),
        package_name_table()[package_slot(p)].1 == p,
{
    match p {
        Package::LatinAsciiUpper => {}
        Package::LatinAsciiLower => {}
        Package::SpanishCoreUpper => {}
        Package::SpanishCoreLower => {}
        Package::FrenchAccentsUpper => {}
        Package::FrenchAccentsLower => {}
        Package::GermanExtrasUpper => {}
        Package::GermanExtrasLower => {}
        Package::ItalianCoreUpper => {}
        Package::ItalianCoreLower => {}
        Package::PortugueseCoreUpper => {}
        Package::PortugueseCoreLower => {}
        Package::DanishNorwegianUpper => {}
        Package::DanishNorwegianLower => {}
        Package::SwedishUpper => {}
        Package::SwedishLower => {}
        Package::IcelandicUpper => {}
        Package::IcelandicLower => {}
        Package::LithuanianUpper => {}
        Package::LithuanianLower => {}
        Package::LatvianUpper => {}
        Package::LatvianLower => {}
        Package::CzechUpper => {}
        Package::CzechLower => {}
        Package::SlovakUpper => {}
        Package::SlovakLower => {}
        Package::SloveneBCSUpper => {}
        Package::SloveneBCSLower => {}
        Package::HungarianUpper => {}
        Package::HungarianLower => {}
        Package::PolishUpper => {}
        Package::PolishLower => {}
        Package::RomanianUpper => {}
        Package::RomanianLower => {}
        Package::WelshUpper => {}
        Package::WelshLower => {}
        Package::GaelicUpper => {}
        Package::GaelicLower => {}
        Package::MalteseUpper => {}
        Package::MalteseLower => {}
        Package::TurkishAzeriUpper => {}
        Package::TurkishAzeriLower => {}
        Package::GreenlandicUpper => {}
        Package::GreenlandicLower => {}
        Package::LatinLigaturesUpper => {}
        Package::LatinLigaturesLower => {}
        Package::LatinDigraphsCommon => {}
        Package::LatinDigraphsCatalan => {}
        Package::LatinDigraphsMaltese => {}
        Package::LatinDigraphsAll => {}
        Package::LatinIpaCore => {}
        Package::LatinIpaModifiers => {}
        Package::LatinClicks => {}
        Package::VietnameseUpper => {}
        Package::VietnameseLower => {}
        Package::EsperantoUpper => {}
        Package::EsperantoLower => {}
        Package::YorubaUpper => {}
        Package::YorubaLower => {}
        Package::KikuyuUpper => {}
        Package::KikuyuLower => {}
        Package::LatinSalishUpper => {}
        Package::LatinSalishLower => {}
        Package::LatinExtendedOgonekUpper => {}
        Package::LatinExtendedOgonekLower => {}
        Package::RomanianLegacyCedillaUpper => {}
        Package::RomanianLegacyCedillaLower => {}
        Package::LatinAfricanUpper => {}
        Package::LatinAfricanLower => {}
        Package::YorubaTonesUpper => {}
        Package::YorubaTonesLower => {}
        Package::LatinPinyinUpper => {}
        Package::LatinPinyinLower => {}
        Package::GreekCaps => {}
        Package::GreekLowerBase => {}
        Package::GreekMonotonicMarksUpper => {}
        Package::GreekMonotonicMarksLower => {}
        Package::CyrillicRuCaps => {}
        Package::CyrillicRuLower => {}
        Package::CyrillicBgCaps => {}
        Package::CyrillicBgLower => {}
        Package::CyrillicUkCaps => {}
        Package::CyrillicUkLower => {}
        Package::CyrillicBeCaps => {}
        Package::CyrillicBeLower => {}
        Package::CyrillicSrMeCaps => {}
        Package::CyrillicSrMeLower => {}
        Package::CyrillicMkCaps => {}
        Package::CyrillicMkLower => {}
        Package::ArmenianCaps => {}
        Package::ArmenianLower => {}
        Package::GeorgianMkhedruli => {}
        Package::GeorgianMtavruli => {}
        Package::Hebrew => {}
        Package::CherokeeUpper => {}
        Package::CherokeeSmall => {}
        Package::InuktitutCore => {}
        Package::CreeCore => {}
        Package::Hiragana => {}
        Package::Katakana => {}
        Package::HangulJamoL => {}
        Package::HangulJamoV => {}
        Package::HangulJamoT => {}
        Package::HangulJamoAll => {}
        Package::EthiopicCore => {}
        Package::ArabicCore => {}
        Package::PersianUrduExtras => {}
        Package::SyriacCore => {}
        Package::ThaanaCore => {}
        Package::DevanagariCore => {}
        Package::BengaliCore => {}
        Package::GurmukhiCore => {}
        Package::GujaratiCore => {}
        Package::OdiaCore => {}
        Package::TamilCore => {}
        Package::TeluguCore => {}
        Package::KannadaCore => {}
        Package::MalayalamCore => {}
        Package::SinhalaCore => {}
        Package::ThaiCore => {}
        Package::LaoCore => {}
        Package::TibetanCore => {}
        Package::MyanmarCore => {}
        Package::KhmerCore => {}
        Package::DigitsAscii => {}
        Package::DigitsArabicIndic => {}
        Package::DigitsExtendedArabicIndic => {}
        Package::DigitsDevanagari => {}
        Package::DigitsBengali => {}
        Package::DigitsGurmukhi => {}
        Package::DigitsGujarati => {}
        Package::DigitsOdia => {}
        Package::DigitsTamil => {}
        Package::DigitsTelugu => {}
        Package::DigitsKannada => {}
        Package::DigitsMalayalam => {}
        Package::DigitsSinhala => {}
        Package::DigitsThai => {}
        Package::DigitsLao => {}
        Package::DigitsTibetan => {}
        Package::DigitsMyanmar => {}
        Package::DigitsKhmer => {}
        Package::DigitsSuperscriptCore => {}
        Package::DigitsSubscriptCore => {}
        Package::MathBasicArithmetic => {}
        Package::MathFullwidthBasicEastAsian => {}
        Package::MathArabicNumericSymbols => {}
        Package::MathTypographicVariants => {}
        Package::MathAlgebraCore => {}
        Package::MathSetRelations => {}
        Package::MathCalculusCore => {}
        Package::MathLogicCore => {}
        Package::MathArrowsBasic => {}
        Package::MathArrowsExtended => {}
        Package::MathDelimitersExtended => {}
        Package::MathOperatorsExtended => {}
        Package::MathDoubleStruckSets => {}
        Package::PunctuationWordBasicLatin => {}
        Package::PunctuationUnderscoreBasic => {}
        Package::PunctuationUnderscoreExtended => {}
        Package::PunctuationSentenceBasicLatin => {}
        Package::PunctuationSpanishExtras => {}
        Package::PunctuationGreekAnoTeleia => {}
        Package::PunctuationHebrewCore => {}
        Package::PunctuationArabicCore => {}
        Package::PunctuationDevanagariCore => {}
        Package::PunctuationJapaneseCore => {}
        Package::PunctuationThaiCore => {}
        Package::PunctuationLaoCore => {}
        Package::PunctuationTibetanCore => {}
        Package::PunctuationMyanmarCore => {}
        Package::PunctuationKhmerCore => {}
        Package::PunctuationDashesBasic => {}
        Package::PunctuationDashesExtended => {}
        Package::PunctuationDashesAll => {}
        Package::SymbolsAstroBasic => {}
        Package::LatinSmallCapsExtended => {}
        Package::BraillePatterns => {}
        Package::SymbolsMusicBasic => {}
        Package::PunctuationCurrencyExtended => {}
        Package::PunctuationLetterlikeSymbols => {}
        Package::PunctuationPrimesBasic => {}
        Package::HawaiianCoreUpper => {}
        Package::HawaiianCoreLower => {}
        Package::HawaiianOkina => {}
        Package::PunctuationSectionsBasic => {}
    }
}

/// The names by which a configuration selects packages.
pub fn package_names() -> (r: &'static [(&'static str, Package)])
    ensures
        r@ == package_name_table(),
{
    &[
        ("arabic.core", Package::ArabicCore),
        ("armenian.caps", Package::ArmenianCaps),
        ("armenian.lower", Package::ArmenianLower),
        ("bengali.core", Package::BengaliCore),
        ("braille.patterns", Package::BraillePatterns),
        ("cas.cree.core", Package::CreeCore),
        ("cas.inuktitut.core", Package::InuktitutCore),
        ("cherokee.small", Package::CherokeeSmall),
        ("cherokee.upper", Package::CherokeeUpper),
        ("cyr.be.caps", Package::CyrillicBeCaps),
        ("cyr.be.lower", Package::CyrillicBeLower),
        ("cyr.bg.caps", Package::CyrillicBgCaps),
        ("cyr.bg.lower", Package::CyrillicBgLower),
        ("cyr.mk.caps", Package::CyrillicMkCaps),
        ("cyr.mk.lower", Package::CyrillicMkLower),
        ("cyr.ru.caps", Package::CyrillicRuCaps),
        ("cyr.ru.lower", Package::CyrillicRuLower),
        ("cyr.srme.caps", Package::CyrillicSrMeCaps),
        ("cyr.srme.lower", Package::CyrillicSrMeLower),
        ("cyr.uk.caps", Package::CyrillicUkCaps),
        ("cyr.uk.lower", Package::CyrillicUkLower),
        ("czech.lower", Package::CzechLower),
        ("czech.upper", Package::CzechUpper),
        ("danish_norwegian.lower", Package::DanishNorwegianLower),
        ("danish_norwegian.upper", Package::DanishNorwegianUpper),
        ("devanagari.core", Package::DevanagariCore),
        ("digits.arabic_indic", Package::DigitsArabicIndic),
        ("digits.ascii", Package::DigitsAscii),
        ("digits.bengali", Package::DigitsBengali),
        ("digits.devanagari", Package::DigitsDevanagari),
        ("digits.extended_arabic_indic", Package::DigitsExtendedArabicIndic),
        ("digits.gujarati", Package::DigitsGujarati),
        ("digits.gurmukhi", Package::DigitsGurmukhi),
        ("digits.kannada", Package::DigitsKannada),
        ("digits.khmer", Package::DigitsKhmer),
        ("digits.lao", Package::DigitsLao),
        ("digits.malayalam", Package::DigitsMalayalam),
        ("digits.myanmar", Package::DigitsMyanmar),
        ("digits.odia", Package::DigitsOdia),
        ("digits.sinhala", Package::DigitsSinhala),
        ("digits.subscript.core", Package::DigitsSubscriptCore),
        ("digits.superscript.core", Package::DigitsSuperscriptCore),
        ("digits.tamil", Package::DigitsTamil),
        ("digits.telugu", Package::DigitsTelugu),
        ("digits.thai", Package::DigitsThai),
        ("digits.tibetan", Package::DigitsTibetan),
        ("esperanto.lower", Package::EsperantoLower),
        ("esperanto.upper", Package::EsperantoUpper),
        ("ethiopic.core", Package::EthiopicCore),
        ("french.accents.lower", Package::FrenchAccentsLower),
        ("french.accents.upper", Package::FrenchAccentsUpper),
        ("gaelic.lower", Package::GaelicLower),
        ("gaelic.upper", Package::GaelicUpper),
        ("georgian.mkhedruli", Package::GeorgianMkhedruli),
        ("georgian.mtavruli", Package::GeorgianMtavruli),
        ("german.extras.lower", Package::GermanExtrasLower),
        ("german.extras.upper", Package::GermanExtrasUpper),
        ("greek.caps", Package::GreekCaps),
        ("greek.lower.base", Package::GreekLowerBase),
        ("greek.monotonic.marks.lower", Package::GreekMonotonicMarksLower),
        ("greek.monotonic.marks.upper", Package::GreekMonotonicMarksUpper),
        ("greenlandic.lower", Package::GreenlandicLower),
        ("greenlandic.upper", Package::GreenlandicUpper),
        ("gujarati.core", Package::GujaratiCore),
        ("gurmukhi.core", Package::GurmukhiCore),
        ("hangul.jamo", Package::HangulJamoAll),
        ("hangul.jamo.L", Package::HangulJamoL),
        ("hangul.jamo.T", Package::HangulJamoT),
        ("hangul.jamo.V", Package::HangulJamoV),
        ("hangul.jamo.all", Package::HangulJamoAll),
        ("hawaiian.core.lower", Package::HawaiianCoreLower),
        ("hawaiian.core.upper", Package::HawaiianCoreUpper),
        ("hawaiian.okina", Package::HawaiianOkina),
        ("hebrew.core", Package::Hebrew),
        ("hungarian.lower", Package::HungarianLower),
        ("hungarian.upper", Package::HungarianUpper),
        ("icelandic.lower", Package::IcelandicLower),
        ("icelandic.upper", Package::IcelandicUpper),
        ("italian.core.lower", Package::ItalianCoreLower),
        ("italian.core.upper", Package::ItalianCoreUpper),
        ("kana.hiragana", Package::Hiragana),
        ("kana.katakana", Package::Katakana),
        ("kannada.core", Package::KannadaCore),
        ("khmer.core", Package::KhmerCore),
        ("kikuyu.lower", Package::KikuyuLower),
        ("kikuyu.upper", Package::KikuyuUpper),
        ("lao.core", Package::LaoCore),
        ("latin.african.lower", Package::LatinAfricanLower),
        ("latin.african.upper", Package::LatinAfricanUpper),
        ("latin.ascii.lower", Package::LatinAsciiLower),
        ("latin.ascii.upper", Package::LatinAsciiUpper),
        ("latin.clicks", Package::LatinClicks),
        ("latin.digraphs.all", Package::LatinDigraphsAll),
        ("latin.digraphs.catalan", Package::LatinDigraphsCatalan),
        ("latin.digraphs.common", Package::LatinDigraphsCommon),
        ("latin.digraphs.maltese", Package::LatinDigraphsMaltese),
        ("latin.extended.ogonek.lower", Package::LatinExtendedOgonekLower),
        ("latin.extended.ogonek.upper", Package::LatinExtendedOgonekUpper),
        ("latin.ipa.core", Package::LatinIpaCore),
        ("latin.ipa.modifiers", Package::LatinIpaModifiers),
        ("latin.ligatures.lower", Package::LatinLigaturesLower),
        ("latin.ligatures.upper", Package::LatinLigaturesUpper),
        ("latin.pinyin.lower", Package::LatinPinyinLower),
        ("latin.pinyin.upper", Package::LatinPinyinUpper),
        ("latin.salish.lower", Package::LatinSalishLower),
        ("latin.salish.upper", Package::LatinSalishUpper),
        ("latin.small.caps.extended", Package::LatinSmallCapsExtended),
        ("latvian.lower", Package::LatvianLower),
        ("latvian.upper", Package::LatvianUpper),
        ("lithuanian.lower", Package::LithuanianLower),
        ("lithuanian.upper", Package::LithuanianUpper),
        ("malayalam.core", Package::MalayalamCore),
        ("maltese.lower", Package::MalteseLower),
        ("maltese.upper", Package::MalteseUpper),
        ("math.algebra_core", Package::MathAlgebraCore),
        ("math.arabic.numeric_symbols", Package::MathArabicNumericSymbols),
        ("math.arrows.basic", Package::MathArrowsBasic),
        ("math.arrows.extended", Package::MathArrowsExtended),
        ("math.basic_arithmetic", Package::MathBasicArithmetic),
        ("math.calculus_core", Package::MathCalculusCore),
        ("math.delimiters.extended", Package::MathDelimitersExtended),
        ("math.double_struck.sets", Package::MathDoubleStruckSets),
        ("math.fullwidth.basic_east_asian", Package::MathFullwidthBasicEastAsian),
        ("math.logic_core", Package::MathLogicCore),
        ("math.operators.extended", Package::MathOperatorsExtended),
        ("math.set_relations", Package::MathSetRelations),
        ("math.typographic.variants", Package::MathTypographicVariants),
        ("myanmar.core", Package::MyanmarCore),
        ("odia.core", Package::OdiaCore),
        ("persian_urdu.extras", Package::PersianUrduExtras),
        ("polish.lower", Package::PolishLower),
        ("polish.upper", Package::PolishUpper),
        ("portuguese.core.lower", Package::PortugueseCoreLower),
        ("portuguese.core.upper", Package::PortugueseCoreUpper),
        ("punct.arabic.core", Package::PunctuationArabicCore),
        ("punct.dashes.all", Package::PunctuationDashesAll),
        ("punct.dashes.basic", Package::PunctuationDashesBasic),
        ("punct.dashes.extended", Package::PunctuationDashesExtended),
        ("punct.devanagari.core", Package::PunctuationDevanagariCore),
        ("punct.greek.ano_teleia", Package::PunctuationGreekAnoTeleia),
        ("punct.hebrew.core", Package::PunctuationHebrewCore),
        ("punct.japanese.core", Package::PunctuationJapaneseCore),
        ("punct.khmer.core", Package::PunctuationKhmerCore),
        ("punct.lao.core", Package::PunctuationLaoCore),
        ("punct.myanmar.core", Package::PunctuationMyanmarCore),
        ("punct.sentence.basic_latin", Package::PunctuationSentenceBasicLatin),
        ("punct.spanish.extras", Package::PunctuationSpanishExtras),
        ("punct.thai.core", Package::PunctuationThaiCore),
        ("punct.tibetan.core", Package::PunctuationTibetanCore),
        ("punct.underscore.basic", Package::PunctuationUnderscoreBasic),
        ("punct.underscore.extended", Package::PunctuationUnderscoreExtended),
        ("punct.word.basic_latin", Package::PunctuationWordBasicLatin),
        ("punctuation.currency.extended", Package::PunctuationCurrencyExtended),
        ("punctuation.letterlike.symbols", Package::PunctuationLetterlikeSymbols),
        ("punctuation.primes.basic", Package::PunctuationPrimesBasic),
        ("punctuation.sections.basic", Package::PunctuationSectionsBasic),
        ("romanian.legacy.cedilla.lower", Package::RomanianLegacyCedillaLower),
        ("romanian.legacy.cedilla.upper", Package::RomanianLegacyCedillaUpper),
        ("romanian.lower", Package::RomanianLower),
        ("romanian.upper", Package::RomanianUpper),
        ("sinhala.core", Package::SinhalaCore),
        ("slovak.lower", Package::SlovakLower),
        ("slovak.upper", Package::SlovakUpper),
        ("slovene_bcs.lower", Package::SloveneBCSLower),
        ("slovene_bcs.upper", Package::SloveneBCSUpper),
        ("spanish.core.lower", Package::SpanishCoreLower),
        ("spanish.core.upper", Package::SpanishCoreUpper),
        ("swedish.lower", Package::SwedishLower),
        ("swedish.upper", Package::SwedishUpper),
        ("symbols.astro.basic", Package::SymbolsAstroBasic),
        ("symbols.music.basic", Package::SymbolsMusicBasic),
        ("syriac.core", Package::SyriacCore),
        ("tamil.core", Package::TamilCore),
        ("telugu.core", Package::TeluguCore),
        ("thaana.core", Package::ThaanaCore),
        ("thai.core", Package::ThaiCore),
        ("tibetan.core", Package::TibetanCore),
        ("turkish_azeri.lower", Package::TurkishAzeriLower),
        ("turkish_azeri.upper", Package::TurkishAzeriUpper),
        ("vietnamese.lower", Package::VietnameseLower),
        ("vietnamese.upper", Package::VietnameseUpper),
        ("welsh.lower", Package::WelshLower),
        ("welsh.upper", Package::WelshUpper),
        ("yoruba.lower", Package::YorubaLower),
        ("yoruba.tones.lower", Package::YorubaTonesLower),
        ("yoruba.tones.upper", Package::YorubaTonesUpper),
        ("yoruba.upper", Package::YorubaUpper),
    ]
}

} // verus!
