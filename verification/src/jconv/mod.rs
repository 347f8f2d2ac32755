//! Kana and latin character translation.
//!
//! The kana tables encode SKK-specific romaji spellings (っ = "tt",
//! ん = "nn") relied on by entry normalization. Conversions apply each row of
//! the voiced/semi-voiced table and then each row of the plain table as a
//! left-to-right `replace`, so multi-character half-width sequences ("ｶﾞ")
//! win over their prefix ("ｶ").

pub mod eucjp;

use vstd::prelude::*;
use crate::text::{chars_of, chars_replace, has_prefix, replace_all, string_of};
pub use eucjp::{eucj_from_utf8, utf8_from_eucj, EucTable};

verus! {

/// Number of rows in the voiced / semi-voiced kana table.
pub const PRIMARY_ROWS: usize = 26;
/// Number of rows in the plain kana table.
pub const SECONDARY_ROWS: usize = 66;

/// A column of the kana tables.
#[derive(Debug, Clone, Copy, PartialEq, Eq, Structural)]
pub enum KanaColumn {
    Hirakana,
    Katakana,
    Jisx0201Kana,
    Roman,
}

/// A row of the kana tables: hiragana, katakana, half-width kana, romaji.
pub struct KanaRow {
    pub hirakana: &'static str,
    pub katakana: &'static str,
    pub jisx0201kana: &'static str,
    pub roman: &'static str,
}

/// The cell of a spec row for a column.
pub open spec fn cell(row: (Seq<char>, Seq<char>, Seq<char>, Seq<char>), column: KanaColumn) -> Seq<char> {
    match column {
        KanaColumn::Hirakana => row.0,
        KanaColumn::Katakana => row.1,
        KanaColumn::Jisx0201Kana => row.2,
        KanaColumn::Roman => row.3,
    }
}

/// Row `i` of the voiced / semi-voiced kana table.
pub open spec fn primary_row(i: int) -> (Seq<char>, Seq<char>, Seq<char>, Seq<char>) {
    if i == 0 {
        ("が"@, "ガ"@, "ｶﾞ"@, "ga"@)
    } else if i == 1 {
        ("ぎ"@, "ギ"@, "ｷﾞ"@, "gi"@)
    } else if i == 2 {
        ("ぐ"@, "グ"@, "ｸﾞ"@, "gu"@)
    } else if i == 3 {
        ("げ"@, "ゲ"@, "ｹﾞ"@, "ge"@)
    } else if i == 4 {
        ("ご"@, "ゴ"@, "ｺﾞ"@, "go"@)
    } else if i == 5 {
        ("ざ"@, "ザ"@, "ｻﾞ"@, "za"@)
    } else if i == 6 {
        ("じ"@, "ジ"@, "ｼﾞ"@, "zi"@)
    } else if i == 7 {
        ("ず"@, "ズ"@, "ｽﾞ"@, "zu"@)
    } else if i == 8 {
        ("ぜ"@, "ゼ"@, "ｾﾞ"@, "ze"@)
    } else if i == 9 {
        ("ぞ"@, "ゾ"@, "ｿﾞ"@, "zo"@)
    } else if i == 10 {
        ("だ"@, "ダ"@, "ﾀﾞ"@, "da"@)
    } else if i == 11 {
        ("ぢ"@, "ヂ"@, "ﾁﾞ"@, "di"@)
    } else if i == 12 {
        ("づ"@, "ヅ"@, "ﾂﾞ"@, "du"@)
    } else if i == 13 {
        ("で"@, "デ"@, "ﾃﾞ"@, "de"@)
    } else if i == 14 {
        ("ど"@, "ド"@, "ﾄﾞ"@, "do"@)
    } else if i == 15 {
        ("ば"@, "バ"@, "ﾊﾞ"@, "ba"@)
    } else if i == 16 {
        ("び"@, "ビ"@, "ﾋﾞ"@, "bi"@)
    } else if i == 17 {
        ("ぶ"@, "ブ"@, "ﾌﾞ"@, "bu"@)
    } else if i == 18 {
        ("べ"@, "ベ"@, "ﾍﾞ"@, "be"@)
    } else if i == 19 {
        ("ぼ"@, "ボ"@, "ﾎﾞ"@, "bo"@)
    } else if i == 20 {
        ("ぱ"@, "パ"@, "ﾊﾟ"@, "pa"@)
    } else if i == 21 {
        ("ぴ"@, "ピ"@, "ﾋﾟ"@, "pi"@)
    } else if i == 22 {
        ("ぷ"@, "プ"@, "ﾌﾟ"@, "pu"@)
    } else if i == 23 {
        ("ぺ"@, "ペ"@, "ﾍﾟ"@, "pe"@)
    } else if i == 24 {
        ("ぽ"@, "ポ"@, "ﾎﾟ"@, "po"@)
    } else {
        ("う゛"@, "ヴ"@, "ｳﾞ"@, "vu"@)
    }
}

/// Row `i` of the plain kana table.
pub open spec fn secondary_row(i: int) -> (Seq<char>, Seq<char>, Seq<char>, Seq<char>) {
    if i == 0 {
        ("あ"@, "ア"@, "ｱ"@, "a"@)
    } else if i == 1 {
        ("い"@, "イ"@, "ｲ"@, "i"@)
    } else if i == 2 {
        ("う"@, "ウ"@, "ｳ"@, "u"@)
    } else if i == 3 {
        ("え"@, "エ"@, "ｴ"@, "e"@)
    } else if i == 4 {
        ("お"@, "オ"@, "ｵ"@, "o"@)
    } else if i == 5 {
        ("か"@, "カ"@, "ｶ"@, "ka"@)
    } else if i == 6 {
        ("き"@, "キ"@, "ｷ"@, "ki"@)
    } else if i == 7 {
        ("く"@, "ク"@, "ｸ"@, "ku"@)
    } else if i == 8 {
        ("け"@, "ケ"@, "ｹ"@, "ke"@)
    } else if i == 9 {
        ("こ"@, "コ"@, "ｺ"@, "ko"@)
    } else if i == 10 {
        ("さ"@, "サ"@, "ｻ"@, "sa"@)
    } else if i == 11 {
        ("し"@, "シ"@, "ｼ"@, "si"@)
    } else if i == 12 {
        ("す"@, "ス"@, "ｽ"@, "su"@)
    } else if i == 13 {
        ("せ"@, "セ"@, "ｾ"@, "se"@)
    } else if i == 14 {
        ("そ"@, "ソ"@, "ｿ"@, "so"@)
    } else if i == 15 {
        ("た"@, "タ"@, "ﾀ"@, "ta"@)
    } else if i == 16 {
        ("ち"@, "チ"@, "ﾁ"@, "ti"@)
    } else if i == 17 {
        ("つ"@, "ツ"@, "ﾂ"@, "tu"@)
    } else if i == 18 {
        ("て"@, "テ"@, "ﾃ"@, "te"@)
    } else if i == 19 {
        ("と"@, "ト"@, "ﾄ"@, "to"@)
    } else if i == 20 {
        ("な"@, "ナ"@, "ﾅ"@, "na"@)
    } else if i == 21 {
        ("に"@, "ニ"@, "ﾆ"@, "ni"@)
    } else if i == 22 {
        ("ぬ"@, "ヌ"@, "ﾇ"@, "nu"@)
    } else if i == 23 {
        ("ね"@, "ネ"@, "ﾈ"@, "ne"@)
    } else if i == 24 {
        ("の"@, "ノ"@, "ﾉ"@, "no"@)
    } else if i == 25 {
        ("は"@, "ハ"@, "ﾊ"@, "ha"@)
    } else if i == 26 {
        ("ひ"@, "ヒ"@, "ﾋ"@, "hi"@)
    } else if i == 27 {
        ("ふ"@, "フ"@, "ﾌ"@, "hu"@)
    } else if i == 28 {
        ("へ"@, "ヘ"@, "ﾍ"@, "he"@)
    } else if i == 29 {
        ("ほ"@, "ホ"@, "ﾎ"@, "ho"@)
    } else if i == 30 {
        ("ま"@, "マ"@, "ﾏ"@, "ma"@)
    } else if i == 31 {
        ("み"@, "ミ"@, "ﾐ"@, "mi"@)
    } else if i == 32 {
        ("む"@, "ム"@, "ﾑ"@, "mu"@)
    } else if i == 33 {
        ("め"@, "メ"@, "ﾒ"@, "me"@)
    } else if i == 34 {
        ("も"@, "モ"@, "ﾓ"@, "mo"@)
    } else if i == 35 {
        ("や"@, "ヤ"@, "ﾔ"@, "ya"@)
    } else if i == 36 {
        ("ゆ"@, "ユ"@, "ﾕ"@, "yu"@)
    } else if i == 37 {
        ("よ"@, "ヨ"@, "ﾖ"@, "yo"@)
    } else if i == 38 {
        ("ら"@, "ラ"@, "ﾗ"@, "ra"@)
    } else if i == 39 {
        ("り"@, "リ"@, "ﾘ"@, "ri"@)
    } else if i == 40 {
        ("る"@, "ル"@, "ﾙ"@, "ru"@)
    } else if i == 41 {
        ("れ"@, "レ"@, "ﾚ"@, "re"@)
    } else if i == 42 {
        ("ろ"@, "ロ"@, "ﾛ"@, "ro"@)
    } else if i == 43 {
        ("わ"@, "ワ"@, "ﾜ"@, "wa"@)
    } else if i == 44 {
        ("ゐ"@, "ヰ"@, "ｲ"@, "wi"@)
    } else if i == 45 {
        ("ゑ"@, "ヱ"@, "ｴ"@, "we"@)
    } else if i == 46 {
        ("を"@, "ヲ"@, "ｦ"@, "wo"@)
    } else if i == 47 {
        ("ん"@, "ン"@, "ﾝ"@, "nn"@)
    } else if i == 48 {
        ("ぁ"@, "ァ"@, "ｧ"@, "xa"@)
    } else if i == 49 {
        ("ぃ"@, "ィ"@, "ｨ"@, "xi"@)
    } else if i == 50 {
        ("ぅ"@, "ゥ"@, "ｩ"@, "xu"@)
    } else if i == 51 {
        ("ぇ"@, "ェ"@, "ｪ"@, "xe"@)
    } else if i == 52 {
        ("ぉ"@, "ォ"@, "ｫ"@, "xo"@)
    } else if i == 53 {
        ("っ"@, "ッ"@, "ｯ"@, "tt"@)
    } else if i == 54 {
        ("ゃ"@, "ャ"@, "ｬ"@, "xya"@)
    } else if i == 55 {
        ("ゅ"@, "ュ"@, "ｭ"@, "xyu"@)
    } else if i == 56 {
        ("ょ"@, "ョ"@, "ｮ"@, "xyo"@)
    } else if i == 57 {
        ("　"@, "　"@, " "@, " "@)
    } else if i == 58 {
        ("。"@, "。"@, "｡"@, "。"@)
    } else if i == 59 {
        ("、"@, "、"@, "､"@, "､"@)
    } else if i == 60 {
        ("ー"@, "ー"@, "ｰ"@, "-"@)
    } else if i == 61 {
        ("「"@, "「"@, "｢"@, "｢"@)
    } else if i == 62 {
        ("」"@, "」"@, "｣"@, "｣"@)
    } else if i == 63 {
        ("゛"@, "゛"@, "ﾞ"@, "ﾞ"@)
    } else if i == 64 {
        ("゜"@, "゜"@, "ﾟ"@, "ﾟ"@)
    } else {
        ("ゎ"@, "ヮ"@, "ﾜ"@, "xwa"@)
    }
}

/// The view of an executable row.
pub open spec fn row_view(r: KanaRow) -> (Seq<char>, Seq<char>, Seq<char>, Seq<char>) {
    (r.hirakana@, r.katakana@, r.jisx0201kana@, r.roman@)
}

fn primary(i: usize) -> (r: KanaRow)
    requires
        i < PRIMARY_ROWS,
    ensures
        row_view(r) == primary_row(i as int),
{
    match i {
        0 => KanaRow { hirakana: "が", katakana: "ガ", jisx0201kana: "ｶﾞ", roman: "ga" },
        1 => KanaRow { hirakana: "ぎ", katakana: "ギ", jisx0201kana: "ｷﾞ", roman: "gi" },
        2 => KanaRow { hirakana: "ぐ", katakana: "グ", jisx0201kana: "ｸﾞ", roman: "gu" },
        3 => KanaRow { hirakana: "げ", katakana: "ゲ", jisx0201kana: "ｹﾞ", roman: "ge" },
        4 => KanaRow { hirakana: "ご", katakana: "ゴ", jisx0201kana: "ｺﾞ", roman: "go" },
        5 => KanaRow { hirakana: "ざ", katakana: "ザ", jisx0201kana: "ｻﾞ", roman: "za" },
        6 => KanaRow { hirakana: "じ", katakana: "ジ", jisx0201kana: "ｼﾞ", roman: "zi" },
        7 => KanaRow { hirakana: "ず", katakana: "ズ", jisx0201kana: "ｽﾞ", roman: "zu" },
        8 => KanaRow { hirakana: "ぜ", katakana: "ゼ", jisx0201kana: "ｾﾞ", roman: "ze" },
        9 => KanaRow { hirakana: "ぞ", katakana: "ゾ", jisx0201kana: "ｿﾞ", roman: "zo" },
        10 => KanaRow { hirakana: "だ", katakana: "ダ", jisx0201kana: "ﾀﾞ", roman: "da" },
        11 => KanaRow { hirakana: "ぢ", katakana: "ヂ", jisx0201kana: "ﾁﾞ", roman: "di" },
        12 => KanaRow { hirakana: "づ", katakana: "ヅ", jisx0201kana: "ﾂﾞ", roman: "du" },
        13 => KanaRow { hirakana: "で", katakana: "デ", jisx0201kana: "ﾃﾞ", roman: "de" },
        14 => KanaRow { hirakana: "ど", katakana: "ド", jisx0201kana: "ﾄﾞ", roman: "do" },
        15 => KanaRow { hirakana: "ば", katakana: "バ", jisx0201kana: "ﾊﾞ", roman: "ba" },
        16 => KanaRow { hirakana: "び", katakana: "ビ", jisx0201kana: "ﾋﾞ", roman: "bi" },
        17 => KanaRow { hirakana: "ぶ", katakana: "ブ", jisx0201kana: "ﾌﾞ", roman: "bu" },
        18 => KanaRow { hirakana: "べ", katakana: "ベ", jisx0201kana: "ﾍﾞ", roman: "be" },
        19 => KanaRow { hirakana: "ぼ", katakana: "ボ", jisx0201kana: "ﾎﾞ", roman: "bo" },
        20 => KanaRow { hirakana: "ぱ", katakana: "パ", jisx0201kana: "ﾊﾟ", roman: "pa" },
        21 => KanaRow { hirakana: "ぴ", katakana: "ピ", jisx0201kana: "ﾋﾟ", roman: "pi" },
        22 => KanaRow { hirakana: "ぷ", katakana: "プ", jisx0201kana: "ﾌﾟ", roman: "pu" },
        23 => KanaRow { hirakana: "ぺ", katakana: "ペ", jisx0201kana: "ﾍﾟ", roman: "pe" },
        24 => KanaRow { hirakana: "ぽ", katakana: "ポ", jisx0201kana: "ﾎﾟ", roman: "po" },
        _ => KanaRow { hirakana: "う゛", katakana: "ヴ", jisx0201kana: "ｳﾞ", roman: "vu" },
    }
}

fn secondary(i: usize) -> (r: KanaRow)
    requires
        i < SECONDARY_ROWS,
    ensures
        row_view(r) == secondary_row(i as int),
{
    match i {
        0 => KanaRow { hirakana: "あ", katakana: "ア", jisx0201kana: "ｱ", roman: "a" },
        1 => KanaRow { hirakana: "い", katakana: "イ", jisx0201kana: "ｲ", roman: "i" },
        2 => KanaRow { hirakana: "う", katakana: "ウ", jisx0201kana: "ｳ", roman: "u" },
        3 => KanaRow { hirakana: "え", katakana: "エ", jisx0201kana: "ｴ", roman: "e" },
        4 => KanaRow { hirakana: "お", katakana: "オ", jisx0201kana: "ｵ", roman: "o" },
        5 => KanaRow { hirakana: "か", katakana: "カ", jisx0201kana: "ｶ", roman: "ka" },
        6 => KanaRow { hirakana: "き", katakana: "キ", jisx0201kana: "ｷ", roman: "ki" },
        7 => KanaRow { hirakana: "く", katakana: "ク", jisx0201kana: "ｸ", roman: "ku" },
        8 => KanaRow { hirakana: "け", katakana: "ケ", jisx0201kana: "ｹ", roman: "ke" },
        9 => KanaRow { hirakana: "こ", katakana: "コ", jisx0201kana: "ｺ", roman: "ko" },
        10 => KanaRow { hirakana: "さ", katakana: "サ", jisx0201kana: "ｻ", roman: "sa" },
        11 => KanaRow { hirakana: "し", katakana: "シ", jisx0201kana: "ｼ", roman: "si" },
        12 => KanaRow { hirakana: "す", katakana: "ス", jisx0201kana: "ｽ", roman: "su" },
        13 => KanaRow { hirakana: "せ", katakana: "セ", jisx0201kana: "ｾ", roman: "se" },
        14 => KanaRow { hirakana: "そ", katakana: "ソ", jisx0201kana: "ｿ", roman: "so" },
        15 => KanaRow { hirakana: "た", katakana: "タ", jisx0201kana: "ﾀ", roman: "ta" },
        16 => KanaRow { hirakana: "ち", katakana: "チ", jisx0201kana: "ﾁ", roman: "ti" },
        17 => KanaRow { hirakana: "つ", katakana: "ツ", jisx0201kana: "ﾂ", roman: "tu" },
        18 => KanaRow { hirakana: "て", katakana: "テ", jisx0201kana: "ﾃ", roman: "te" },
        19 => KanaRow { hirakana: "と", katakana: "ト", jisx0201kana: "ﾄ", roman: "to" },
        20 => KanaRow { hirakana: "な", katakana: "ナ", jisx0201kana: "ﾅ", roman: "na" },
        21 => KanaRow { hirakana: "に", katakana: "ニ", jisx0201kana: "ﾆ", roman: "ni" },
        22 => KanaRow { hirakana: "ぬ", katakana: "ヌ", jisx0201kana: "ﾇ", roman: "nu" },
        23 => KanaRow { hirakana: "ね", katakana: "ネ", jisx0201kana: "ﾈ", roman: "ne" },
        24 => KanaRow { hirakana: "の", katakana: "ノ", jisx0201kana: "ﾉ", roman: "no" },
        25 => KanaRow { hirakana: "は", katakana: "ハ", jisx0201kana: "ﾊ", roman: "ha" },
        26 => KanaRow { hirakana: "ひ", katakana: "ヒ", jisx0201kana: "ﾋ", roman: "hi" },
        27 => KanaRow { hirakana: "ふ", katakana: "フ", jisx0201kana: "ﾌ", roman: "hu" },
        28 => KanaRow { hirakana: "へ", katakana: "ヘ", jisx0201kana: "ﾍ", roman: "he" },
        29 => KanaRow { hirakana: "ほ", katakana: "ホ", jisx0201kana: "ﾎ", roman: "ho" },
        30 => KanaRow { hirakana: "ま", katakana: "マ", jisx0201kana: "ﾏ", roman: "ma" },
        31 => KanaRow { hirakana: "み", katakana: "ミ", jisx0201kana: "ﾐ", roman: "mi" },
        32 => KanaRow { hirakana: "む", katakana: "ム", jisx0201kana: "ﾑ", roman: "mu" },
        33 => KanaRow { hirakana: "め", katakana: "メ", jisx0201kana: "ﾒ", roman: "me" },
        34 => KanaRow { hirakana: "も", katakana: "モ", jisx0201kana: "ﾓ", roman: "mo" },
        35 => KanaRow { hirakana: "や", katakana: "ヤ", jisx0201kana: "ﾔ", roman: "ya" },
        36 => KanaRow { hirakana: "ゆ", katakana: "ユ", jisx0201kana: "ﾕ", roman: "yu" },
        37 => KanaRow { hirakana: "よ", katakana: "ヨ", jisx0201kana: "ﾖ", roman: "yo" },
        38 => KanaRow { hirakana: "ら", katakana: "ラ", jisx0201kana: "ﾗ", roman: "ra" },
        39 => KanaRow { hirakana: "り", katakana: "リ", jisx0201kana: "ﾘ", roman: "ri" },
        40 => KanaRow { hirakana: "る", katakana: "ル", jisx0201kana: "ﾙ", roman: "ru" },
        41 => KanaRow { hirakana: "れ", katakana: "レ", jisx0201kana: "ﾚ", roman: "re" },
        42 => KanaRow { hirakana: "ろ", katakana: "ロ", jisx0201kana: "ﾛ", roman: "ro" },
        43 => KanaRow { hirakana: "わ", katakana: "ワ", jisx0201kana: "ﾜ", roman: "wa" },
        44 => KanaRow { hirakana: "ゐ", katakana: "ヰ", jisx0201kana: "ｲ", roman: "wi" },
        45 => KanaRow { hirakana: "ゑ", katakana: "ヱ", jisx0201kana: "ｴ", roman: "we" },
        46 => KanaRow { hirakana: "を", katakana: "ヲ", jisx0201kana: "ｦ", roman: "wo" },
        47 => KanaRow { hirakana: "ん", katakana: "ン", jisx0201kana: "ﾝ", roman: "nn" },
        48 => KanaRow { hirakana: "ぁ", katakana: "ァ", jisx0201kana: "ｧ", roman: "xa" },
        49 => KanaRow { hirakana: "ぃ", katakana: "ィ", jisx0201kana: "ｨ", roman: "xi" },
        50 => KanaRow { hirakana: "ぅ", katakana: "ゥ", jisx0201kana: "ｩ", roman: "xu" },
        51 => KanaRow { hirakana: "ぇ", katakana: "ェ", jisx0201kana: "ｪ", roman: "xe" },
        52 => KanaRow { hirakana: "ぉ", katakana: "ォ", jisx0201kana: "ｫ", roman: "xo" },
        53 => KanaRow { hirakana: "っ", katakana: "ッ", jisx0201kana: "ｯ", roman: "tt" },
        54 => KanaRow { hirakana: "ゃ", katakana: "ャ", jisx0201kana: "ｬ", roman: "xya" },
        55 => KanaRow { hirakana: "ゅ", katakana: "ュ", jisx0201kana: "ｭ", roman: "xyu" },
        56 => KanaRow { hirakana: "ょ", katakana: "ョ", jisx0201kana: "ｮ", roman: "xyo" },
        57 => KanaRow { hirakana: "　", katakana: "　", jisx0201kana: " ", roman: " " },
        58 => KanaRow { hirakana: "。", katakana: "。", jisx0201kana: "｡", roman: "。" },
        59 => KanaRow { hirakana: "、", katakana: "、", jisx0201kana: "､", roman: "､" },
        60 => KanaRow { hirakana: "ー", katakana: "ー", jisx0201kana: "ｰ", roman: "-" },
        61 => KanaRow { hirakana: "「", katakana: "「", jisx0201kana: "｢", roman: "｢" },
        62 => KanaRow { hirakana: "」", katakana: "」", jisx0201kana: "｣", roman: "｣" },
        63 => KanaRow { hirakana: "゛", katakana: "゛", jisx0201kana: "ﾞ", roman: "ﾞ" },
        64 => KanaRow { hirakana: "゜", katakana: "゜", jisx0201kana: "ﾟ", roman: "ﾟ" },
        _ => KanaRow { hirakana: "ゎ", katakana: "ヮ", jisx0201kana: "ﾜ", roman: "xwa" },
    }
}

fn pick(r: &KanaRow, column: KanaColumn) -> (s: &'static str)
    ensures
        s@ == cell(row_view(*r), column),
{
    match column {
        KanaColumn::Hirakana => r.hirakana,
        KanaColumn::Katakana => r.katakana,
        KanaColumn::Jisx0201Kana => r.jisx0201kana,
        KanaColumn::Roman => r.roman,
    }
}

/// Apply the first `n` rows of the voiced table to `s`, in order.
pub open spec fn apply_primary(s: Seq<char>, n: int, from: KanaColumn, to: KanaColumn) -> Seq<char>
    decreases n,
{
    if n <= 0 {
        s
    } else {
        replace_all(
            apply_primary(s, n - 1, from, to),
            cell(primary_row(n - 1), from),
            cell(primary_row(n - 1), to),
        )
    }
}

/// Apply the first `n` rows of the plain table to `s`, in order.
pub open spec fn apply_secondary(s: Seq<char>, n: int, from: KanaColumn, to: KanaColumn) -> Seq<char>
    decreases n,
{
    if n <= 0 {
        s
    } else {
        replace_all(
            apply_secondary(s, n - 1, from, to),
            cell(secondary_row(n - 1), from),
            cell(secondary_row(n - 1), to),
        )
    }
}

/// Translate `s` from one kana column to another.
pub open spec fn kana_convert(s: Seq<char>, from: KanaColumn, to: KanaColumn) -> Seq<char> {
    apply_secondary(apply_primary(s, PRIMARY_ROWS as int, from, to), SECONDARY_ROWS as int, from, to)
}

fn convert(s: &str, from: KanaColumn, to: KanaColumn) -> (r: String)
    ensures
        r@ == kana_convert(s@, from, to),
{
    let mut cur = chars_of(s);
    let mut i: usize = 0;
    while i < PRIMARY_ROWS
        invariant
            i <= PRIMARY_ROWS,
            cur@ == apply_primary(s@, i as int, from, to),
        decreases PRIMARY_ROWS - i,
    {
        let row = primary(i);
        let f = chars_of(pick(&row, from));
        let t = chars_of(pick(&row, to));
        cur = chars_replace(cur.as_slice(), f.as_slice(), t.as_slice());
        i += 1;
    }
    let ghost mid = cur@;
    let mut i: usize = 0;
    while i < SECONDARY_ROWS
        invariant
            i <= SECONDARY_ROWS,
            cur@ == apply_secondary(mid, i as int, from, to),
            mid == apply_primary(s@, PRIMARY_ROWS as int, from, to),
        decreases SECONDARY_ROWS - i,
    {
        let row = secondary(i);
        let f = chars_of(pick(&row, from));
        let t = chars_of(pick(&row, to));
        cur = chars_replace(cur.as_slice(), f.as_slice(), t.as_slice());
        i += 1;
    }
    string_of(cur.as_slice())
}

/// A hiragana letter: U+3041 (ぁ) to U+3093 (ん).
pub open spec fn is_hiragana_letter(c: char) -> bool {
    0x3041 <= c as u32 <= 0x3093
}

/// The katakana letter for a hiragana letter: the same letter 0x60 code
/// points further on (ぱ U+3071 → パ U+30D1).
pub open spec fn katakana_of(c: char) -> char {
    ((c as u32) + 0x60) as char
}

/// The text replacing a character `a` by `b` everywhere in `t`.
pub open spec fn swapped(t: Seq<char>, a: char, b: char) -> Seq<char> {
    Seq::new(t.len(), |i: int| if t[i] == a { b } else { t[i] })
}

proof fn lemma_replace_char(t: Seq<char>, a: char, b: char)
    ensures
        replace_all(t, seq![a], seq![b]) == swapped(t, a, b),
    decreases t.len(),
{
    if t.len() > 0 {
        lemma_replace_char(t.skip(1), a, b);
        if t[0] == a {
            assert(has_prefix(t, seq![a])) by {
                assert(t.take(1) =~= seq![a]);
            }
        } else {
            assert(!has_prefix(t, seq![a])) by {
                if has_prefix(t, seq![a]) {
                    assert(t.take(1)[0] == t[0]);
                }
            }
        }
        assert(t.skip(seq![a].len() as int) == t.skip(1));
        assert(replace_all(t, seq![a], seq![b]) =~= swapped(t, a, b)) by {
            let r = replace_all(t, seq![a], seq![b]);
            let rest = replace_all(t.skip(1), seq![a], seq![b]);
            assert forall|i: int| 0 <= i < t.len() implies r[i] == swapped(t, a, b)[i] by {
                if i > 0 {
                    assert(rest[i - 1] == swapped(t.skip(1), a, b)[i - 1]);
                    assert(t.skip(1)[i - 1] == t[i]);
                }
            }
        }
    } else {
        assert(replace_all(t, seq![a], seq![b]) =~= swapped(t, a, b));
    }
}

proof fn lemma_replace_missing(t: Seq<char>, p: Seq<char>, q: Seq<char>, k: int)
    requires
        0 <= k < p.len(),
        forall|i: int| 0 <= i < t.len() ==> #[trigger] t[i] != p[k],
    ensures
        replace_all(t, p, q) == t,
    decreases t.len(),
{
    if t.len() > 0 {
        assert(!has_prefix(t, p)) by {
            if has_prefix(t, p) {
                assert(t.take(p.len() as int)[k] == t[k]);
            }
        }
        lemma_replace_missing(t.skip(1), p, q, k);
        assert(seq![t[0]] + t.skip(1) =~= t);
    }
}

proof fn lemma_replace_same(t: Seq<char>, p: Seq<char>)
    ensures
        replace_all(t, p, p) == t,
    decreases t.len(),
{
    if t.len() > 0 {
        if p.len() > 0 && has_prefix(t, p) {
            lemma_replace_same(t.skip(p.len() as int), p);
            assert(p + t.skip(p.len() as int) =~= t);
        } else {
            lemma_replace_same(t.skip(1), p);
            assert(seq![t[0]] + t.skip(1) =~= t);
        }
    }
}

/// The hiragana cell of row `g` of both tables in the order they are
/// applied: the voiced rows, then the plain rows from 26 on.
spec fn row_hira(g: int) -> Seq<char> {
    if g < 26 { primary_row(g).0 } else { secondary_row(g - 26).0 }
}

spec fn row_kata(g: int) -> Seq<char> {
    if g < 26 { primary_row(g).1 } else { secondary_row(g - 26).1 }
}

/// Rows whose hiragana cell is a single hiragana letter.
spec fn is_letter_row(g: int) -> bool {
    g == 0 || g == 1 || g == 2 || g == 3 || g == 4 || g == 5 || g == 6 || g == 7 || g == 8 || g == 9 || g == 10 || g == 11 || g == 12 || g == 13 || g == 14 || g == 15 || g == 16 || g == 17 || g == 18 || g == 19 || g == 20 || g == 21 || g == 22 || g == 23 || g == 24 || g == 26 || g == 27 || g == 28 || g == 29 || g == 30 || g == 31 || g == 32 || g == 33 || g == 34 || g == 35 || g == 36 || g == 37 || g == 38 || g == 39 || g == 40 || g == 41 || g == 42 || g == 43 || g == 44 || g == 45 || g == 46 || g == 47 || g == 48 || g == 49 || g == 50 || g == 51 || g == 52 || g == 53 || g == 54 || g == 55 || g == 56 || g == 57 || g == 58 || g == 59 || g == 60 || g == 61 || g == 62 || g == 63 || g == 64 || g == 65 || g == 66 || g == 67 || g == 68 || g == 69 || g == 70 || g == 71 || g == 72 || g == 73 || g == 74 || g == 75 || g == 76 || g == 77 || g == 78 || g == 79 || g == 80 || g == 81 || g == 82 || g == 91
}

proof fn lemma_letter_cells(g: int)
    requires
        is_letter_row(g),
    ensures
        row_hira(g).len() == 1,
        is_hiragana_letter(row_hira(g)[0]),
        row_kata(g) == seq![katakana_of(row_hira(g)[0])],
{
    if g == 0 {
        reveal_strlit("が");
        reveal_strlit("ガ");
    } else if g == 1 {
        reveal_strlit("ぎ");
        reveal_strlit("ギ");
    } else if g == 2 {
        reveal_strlit("ぐ");
        reveal_strlit("グ");
    } else if g == 3 {
        reveal_strlit("げ");
        reveal_strlit("ゲ");
    } else if g == 4 {
        reveal_strlit("ご");
        reveal_strlit("ゴ");
    } else if g == 5 {
        reveal_strlit("ざ");
        reveal_strlit("ザ");
    } else if g == 6 {
        reveal_strlit("じ");
        reveal_strlit("ジ");
    } else if g == 7 {
        reveal_strlit("ず");
        reveal_strlit("ズ");
    } else if g == 8 {
        reveal_strlit("ぜ");
        reveal_strlit("ゼ");
    } else if g == 9 {
        reveal_strlit("ぞ");
        reveal_strlit("ゾ");
    } else if g == 10 {
        reveal_strlit("だ");
        reveal_strlit("ダ");
    } else if g == 11 {
        reveal_strlit("ぢ");
        reveal_strlit("ヂ");
    } else if g == 12 {
        reveal_strlit("づ");
        reveal_strlit("ヅ");
    } else if g == 13 {
        reveal_strlit("で");
        reveal_strlit("デ");
    } else if g == 14 {
        reveal_strlit("ど");
        reveal_strlit("ド");
    } else if g == 15 {
        reveal_strlit("ば");
        reveal_strlit("バ");
    } else if g == 16 {
        reveal_strlit("び");
        reveal_strlit("ビ");
    } else if g == 17 {
        reveal_strlit("ぶ");
        reveal_strlit("ブ");
    } else if g == 18 {
        reveal_strlit("べ");
        reveal_strlit("ベ");
    } else if g == 19 {
        reveal_strlit("ぼ");
        reveal_strlit("ボ");
    } else if g == 20 {
        reveal_strlit("ぱ");
        reveal_strlit("パ");
    } else if g == 21 {
        reveal_strlit("ぴ");
        reveal_strlit("ピ");
    } else if g == 22 {
        reveal_strlit("ぷ");
        reveal_strlit("プ");
    } else if g == 23 {
        reveal_strlit("ぺ");
        reveal_strlit("ペ");
    } else if g == 24 {
        reveal_strlit("ぽ");
        reveal_strlit("ポ");
    } else if g == 26 {
        reveal_strlit("あ");
        reveal_strlit("ア");
    } else if g == 27 {
        reveal_strlit("い");
        reveal_strlit("イ");
    } else if g == 28 {
        reveal_strlit("う");
        reveal_strlit("ウ");
    } else if g == 29 {
        reveal_strlit("え");
        reveal_strlit("エ");
    } else if g == 30 {
        reveal_strlit("お");
        reveal_strlit("オ");
    } else if g == 31 {
        reveal_strlit("か");
        reveal_strlit("カ");
    } else if g == 32 {
        reveal_strlit("き");
        reveal_strlit("キ");
    } else if g == 33 {
        reveal_strlit("く");
        reveal_strlit("ク");
    } else if g == 34 {
        reveal_strlit("け");
        reveal_strlit("ケ");
    } else if g == 35 {
        reveal_strlit("こ");
        reveal_strlit("コ");
    } else if g == 36 {
        reveal_strlit("さ");
        reveal_strlit("サ");
    } else if g == 37 {
        reveal_strlit("し");
        reveal_strlit("シ");
    } else if g == 38 {
        reveal_strlit("す");
        reveal_strlit("ス");
    } else if g == 39 {
        reveal_strlit("せ");
        reveal_strlit("セ");
    } else if g == 40 {
        reveal_strlit("そ");
        reveal_strlit("ソ");
    } else if g == 41 {
        reveal_strlit("た");
        reveal_strlit("タ");
    } else if g == 42 {
        reveal_strlit("ち");
        reveal_strlit("チ");
    } else if g == 43 {
        reveal_strlit("つ");
        reveal_strlit("ツ");
    } else if g == 44 {
        reveal_strlit("て");
        reveal_strlit("テ");
    } else if g == 45 {
        reveal_strlit("と");
        reveal_strlit("ト");
    } else if g == 46 {
        reveal_strlit("な");
        reveal_strlit("ナ");
    } else if g == 47 {
        reveal_strlit("に");
        reveal_strlit("ニ");
    } else if g == 48 {
        reveal_strlit("ぬ");
        reveal_strlit("ヌ");
    } else if g == 49 {
        reveal_strlit("ね");
        reveal_strlit("ネ");
    } else if g == 50 {
        reveal_strlit("の");
        reveal_strlit("ノ");
    } else if g == 51 {
        reveal_strlit("は");
        reveal_strlit("ハ");
    } else if g == 52 {
        reveal_strlit("ひ");
        reveal_strlit("ヒ");
    } else if g == 53 {
        reveal_strlit("ふ");
        reveal_strlit("フ");
    } else if g == 54 {
        reveal_strlit("へ");
        reveal_strlit("ヘ");
    } else if g == 55 {
        reveal_strlit("ほ");
        reveal_strlit("ホ");
    } else if g == 56 {
        reveal_strlit("ま");
        reveal_strlit("マ");
    } else if g == 57 {
        reveal_strlit("み");
        reveal_strlit("ミ");
    } else if g == 58 {
        reveal_strlit("む");
        reveal_strlit("ム");
    } else if g == 59 {
        reveal_strlit("め");
        reveal_strlit("メ");
    } else if g == 60 {
        reveal_strlit("も");
        reveal_strlit("モ");
    } else if g == 61 {
        reveal_strlit("や");
        reveal_strlit("ヤ");
    } else if g == 62 {
        reveal_strlit("ゆ");
        reveal_strlit("ユ");
    } else if g == 63 {
        reveal_strlit("よ");
        reveal_strlit("ヨ");
    } else if g == 64 {
        reveal_strlit("ら");
        reveal_strlit("ラ");
    } else if g == 65 {
        reveal_strlit("り");
        reveal_strlit("リ");
    } else if g == 66 {
        reveal_strlit("る");
        reveal_strlit("ル");
    } else if g == 67 {
        reveal_strlit("れ");
        reveal_strlit("レ");
    } else if g == 68 {
        reveal_strlit("ろ");
        reveal_strlit("ロ");
    } else if g == 69 {
        reveal_strlit("わ");
        reveal_strlit("ワ");
    } else if g == 70 {
        reveal_strlit("ゐ");
        reveal_strlit("ヰ");
    } else if g == 71 {
        reveal_strlit("ゑ");
        reveal_strlit("ヱ");
    } else if g == 72 {
        reveal_strlit("を");
        reveal_strlit("ヲ");
    } else if g == 73 {
        reveal_strlit("ん");
        reveal_strlit("ン");
    } else if g == 74 {
        reveal_strlit("ぁ");
        reveal_strlit("ァ");
    } else if g == 75 {
        reveal_strlit("ぃ");
        reveal_strlit("ィ");
    } else if g == 76 {
        reveal_strlit("ぅ");
        reveal_strlit("ゥ");
    } else if g == 77 {
        reveal_strlit("ぇ");
        reveal_strlit("ェ");
    } else if g == 78 {
        reveal_strlit("ぉ");
        reveal_strlit("ォ");
    } else if g == 79 {
        reveal_strlit("っ");
        reveal_strlit("ッ");
    } else if g == 80 {
        reveal_strlit("ゃ");
        reveal_strlit("ャ");
    } else if g == 81 {
        reveal_strlit("ゅ");
        reveal_strlit("ュ");
    } else if g == 82 {
        reveal_strlit("ょ");
        reveal_strlit("ョ");
    } else if g == 91 {
        reveal_strlit("ゎ");
        reveal_strlit("ヮ");
    }
}

/// The row holding hiragana letter `c`.
spec fn letter_row(c: char) -> int {
    let u = c as u32;
    if u == 0x3041 {
        74
    } else if u == 0x3042 {
        26
    } else if u == 0x3043 {
        75
    } else if u == 0x3044 {
        27
    } else if u == 0x3045 {
        76
    } else if u == 0x3046 {
        28
    } else if u == 0x3047 {
        77
    } else if u == 0x3048 {
        29
    } else if u == 0x3049 {
        78
    } else if u == 0x304a {
        30
    } else if u == 0x304b {
        31
    } else if u == 0x304c {
        0
    } else if u == 0x304d {
        32
    } else if u == 0x304e {
        1
    } else if u == 0x304f {
        33
    } else if u == 0x3050 {
        2
    } else if u == 0x3051 {
        34
    } else if u == 0x3052 {
        3
    } else if u == 0x3053 {
        35
    } else if u == 0x3054 {
        4
    } else if u == 0x3055 {
        36
    } else if u == 0x3056 {
        5
    } else if u == 0x3057 {
        37
    } else if u == 0x3058 {
        6
    } else if u == 0x3059 {
        38
    } else if u == 0x305a {
        7
    } else if u == 0x305b {
        39
    } else if u == 0x305c {
        8
    } else if u == 0x305d {
        40
    } else if u == 0x305e {
        9
    } else if u == 0x305f {
        41
    } else if u == 0x3060 {
        10
    } else if u == 0x3061 {
        42
    } else if u == 0x3062 {
        11
    } else if u == 0x3063 {
        79
    } else if u == 0x3064 {
        43
    } else if u == 0x3065 {
        12
    } else if u == 0x3066 {
        44
    } else if u == 0x3067 {
        13
    } else if u == 0x3068 {
        45
    } else if u == 0x3069 {
        14
    } else if u == 0x306a {
        46
    } else if u == 0x306b {
        47
    } else if u == 0x306c {
        48
    } else if u == 0x306d {
        49
    } else if u == 0x306e {
        50
    } else if u == 0x306f {
        51
    } else if u == 0x3070 {
        15
    } else if u == 0x3071 {
        20
    } else if u == 0x3072 {
        52
    } else if u == 0x3073 {
        16
    } else if u == 0x3074 {
        21
    } else if u == 0x3075 {
        53
    } else if u == 0x3076 {
        17
    } else if u == 0x3077 {
        22
    } else if u == 0x3078 {
        54
    } else if u == 0x3079 {
        18
    } else if u == 0x307a {
        23
    } else if u == 0x307b {
        55
    } else if u == 0x307c {
        19
    } else if u == 0x307d {
        24
    } else if u == 0x307e {
        56
    } else if u == 0x307f {
        57
    } else if u == 0x3080 {
        58
    } else if u == 0x3081 {
        59
    } else if u == 0x3082 {
        60
    } else if u == 0x3083 {
        80
    } else if u == 0x3084 {
        61
    } else if u == 0x3085 {
        81
    } else if u == 0x3086 {
        62
    } else if u == 0x3087 {
        82
    } else if u == 0x3088 {
        63
    } else if u == 0x3089 {
        64
    } else if u == 0x308a {
        65
    } else if u == 0x308b {
        66
    } else if u == 0x308c {
        67
    } else if u == 0x308d {
        68
    } else if u == 0x308e {
        91
    } else if u == 0x308f {
        69
    } else if u == 0x3090 {
        70
    } else if u == 0x3091 {
        71
    } else if u == 0x3092 {
        72
    } else if u == 0x3093 {
        73
    } else {
        0
    }
}

proof fn lemma_letter_row(c: char)
    requires
        is_hiragana_letter(c),
    ensures
        is_letter_row(letter_row(c)),
        row_hira(letter_row(c)) == seq![c],
{
    let u = c as u32;
    if u == 0x3041 {
        reveal_strlit("ぁ");
        assert(c == '\u{3041}');
    } else if u == 0x3042 {
        reveal_strlit("あ");
        assert(c == '\u{3042}');
    } else if u == 0x3043 {
        reveal_strlit("ぃ");
        assert(c == '\u{3043}');
    } else if u == 0x3044 {
        reveal_strlit("い");
        assert(c == '\u{3044}');
    } else if u == 0x3045 {
        reveal_strlit("ぅ");
        assert(c == '\u{3045}');
    } else if u == 0x3046 {
        reveal_strlit("う");
        assert(c == '\u{3046}');
    } else if u == 0x3047 {
        reveal_strlit("ぇ");
        assert(c == '\u{3047}');
    } else if u == 0x3048 {
        reveal_strlit("え");
        assert(c == '\u{3048}');
    } else if u == 0x3049 {
        reveal_strlit("ぉ");
        assert(c == '\u{3049}');
    } else if u == 0x304a {
        reveal_strlit("お");
        assert(c == '\u{304a}');
    } else if u == 0x304b {
        reveal_strlit("か");
        assert(c == '\u{304b}');
    } else if u == 0x304c {
        reveal_strlit("が");
        assert(c == '\u{304c}');
    } else if u == 0x304d {
        reveal_strlit("き");
        assert(c == '\u{304d}');
    } else if u == 0x304e {
        reveal_strlit("ぎ");
        assert(c == '\u{304e}');
    } else if u == 0x304f {
        reveal_strlit("く");
        assert(c == '\u{304f}');
    } else if u == 0x3050 {
        reveal_strlit("ぐ");
        assert(c == '\u{3050}');
    } else if u == 0x3051 {
        reveal_strlit("け");
        assert(c == '\u{3051}');
    } else if u == 0x3052 {
        reveal_strlit("げ");
        assert(c == '\u{3052}');
    } else if u == 0x3053 {
        reveal_strlit("こ");
        assert(c == '\u{3053}');
    } else if u == 0x3054 {
        reveal_strlit("ご");
        assert(c == '\u{3054}');
    } else if u == 0x3055 {
        reveal_strlit("さ");
        assert(c == '\u{3055}');
    } else if u == 0x3056 {
        reveal_strlit("ざ");
        assert(c == '\u{3056}');
    } else if u == 0x3057 {
        reveal_strlit("し");
        assert(c == '\u{3057}');
    } else if u == 0x3058 {
        reveal_strlit("じ");
        assert(c == '\u{3058}');
    } else if u == 0x3059 {
        reveal_strlit("す");
        assert(c == '\u{3059}');
    } else if u == 0x305a {
        reveal_strlit("ず");
        assert(c == '\u{305a}');
    } else if u == 0x305b {
        reveal_strlit("せ");
        assert(c == '\u{305b}');
    } else if u == 0x305c {
        reveal_strlit("ぜ");
        assert(c == '\u{305c}');
    } else if u == 0x305d {
        reveal_strlit("そ");
        assert(c == '\u{305d}');
    } else if u == 0x305e {
        reveal_strlit("ぞ");
        assert(c == '\u{305e}');
    } else if u == 0x305f {
        reveal_strlit("た");
        assert(c == '\u{305f}');
    } else if u == 0x3060 {
        reveal_strlit("だ");
        assert(c == '\u{3060}');
    } else if u == 0x3061 {
        reveal_strlit("ち");
        assert(c == '\u{3061}');
    } else if u == 0x3062 {
        reveal_strlit("ぢ");
        assert(c == '\u{3062}');
    } else if u == 0x3063 {
        reveal_strlit("っ");
        assert(c == '\u{3063}');
    } else if u == 0x3064 {
        reveal_strlit("つ");
        assert(c == '\u{3064}');
    } else if u == 0x3065 {
        reveal_strlit("づ");
        assert(c == '\u{3065}');
    } else if u == 0x3066 {
        reveal_strlit("て");
        assert(c == '\u{3066}');
    } else if u == 0x3067 {
        reveal_strlit("で");
        assert(c == '\u{3067}');
    } else if u == 0x3068 {
        reveal_strlit("と");
        assert(c == '\u{3068}');
    } else if u == 0x3069 {
        reveal_strlit("ど");
        assert(c == '\u{3069}');
    } else if u == 0x306a {
        reveal_strlit("な");
        assert(c == '\u{306a}');
    } else if u == 0x306b {
        reveal_strlit("に");
        assert(c == '\u{306b}');
    } else if u == 0x306c {
        reveal_strlit("ぬ");
        assert(c == '\u{306c}');
    } else if u == 0x306d {
        reveal_strlit("ね");
        assert(c == '\u{306d}');
    } else if u == 0x306e {
        reveal_strlit("の");
        assert(c == '\u{306e}');
    } else if u == 0x306f {
        reveal_strlit("は");
        assert(c == '\u{306f}');
    } else if u == 0x3070 {
        reveal_strlit("ば");
        assert(c == '\u{3070}');
    } else if u == 0x3071 {
        reveal_strlit("ぱ");
        assert(c == '\u{3071}');
    } else if u == 0x3072 {
        reveal_strlit("ひ");
        assert(c == '\u{3072}');
    } else if u == 0x3073 {
        reveal_strlit("び");
        assert(c == '\u{3073}');
    } else if u == 0x3074 {
        reveal_strlit("ぴ");
        assert(c == '\u{3074}');
    } else if u == 0x3075 {
        reveal_strlit("ふ");
        assert(c == '\u{3075}');
    } else if u == 0x3076 {
        reveal_strlit("ぶ");
        assert(c == '\u{3076}');
    } else if u == 0x3077 {
        reveal_strlit("ぷ");
        assert(c == '\u{3077}');
    } else if u == 0x3078 {
        reveal_strlit("へ");
        assert(c == '\u{3078}');
    } else if u == 0x3079 {
        reveal_strlit("べ");
        assert(c == '\u{3079}');
    } else if u == 0x307a {
        reveal_strlit("ぺ");
        assert(c == '\u{307a}');
    } else if u == 0x307b {
        reveal_strlit("ほ");
        assert(c == '\u{307b}');
    } else if u == 0x307c {
        reveal_strlit("ぼ");
        assert(c == '\u{307c}');
    } else if u == 0x307d {
        reveal_strlit("ぽ");
        assert(c == '\u{307d}');
    } else if u == 0x307e {
        reveal_strlit("ま");
        assert(c == '\u{307e}');
    } else if u == 0x307f {
        reveal_strlit("み");
        assert(c == '\u{307f}');
    } else if u == 0x3080 {
        reveal_strlit("む");
        assert(c == '\u{3080}');
    } else if u == 0x3081 {
        reveal_strlit("め");
        assert(c == '\u{3081}');
    } else if u == 0x3082 {
        reveal_strlit("も");
        assert(c == '\u{3082}');
    } else if u == 0x3083 {
        reveal_strlit("ゃ");
        assert(c == '\u{3083}');
    } else if u == 0x3084 {
        reveal_strlit("や");
        assert(c == '\u{3084}');
    } else if u == 0x3085 {
        reveal_strlit("ゅ");
        assert(c == '\u{3085}');
    } else if u == 0x3086 {
        reveal_strlit("ゆ");
        assert(c == '\u{3086}');
    } else if u == 0x3087 {
        reveal_strlit("ょ");
        assert(c == '\u{3087}');
    } else if u == 0x3088 {
        reveal_strlit("よ");
        assert(c == '\u{3088}');
    } else if u == 0x3089 {
        reveal_strlit("ら");
        assert(c == '\u{3089}');
    } else if u == 0x308a {
        reveal_strlit("り");
        assert(c == '\u{308a}');
    } else if u == 0x308b {
        reveal_strlit("る");
        assert(c == '\u{308b}');
    } else if u == 0x308c {
        reveal_strlit("れ");
        assert(c == '\u{308c}');
    } else if u == 0x308d {
        reveal_strlit("ろ");
        assert(c == '\u{308d}');
    } else if u == 0x308e {
        reveal_strlit("ゎ");
        assert(c == '\u{308e}');
    } else if u == 0x308f {
        reveal_strlit("わ");
        assert(c == '\u{308f}');
    } else if u == 0x3090 {
        reveal_strlit("ゐ");
        assert(c == '\u{3090}');
    } else if u == 0x3091 {
        reveal_strlit("ゑ");
        assert(c == '\u{3091}');
    } else if u == 0x3092 {
        reveal_strlit("を");
        assert(c == '\u{3092}');
    } else if u == 0x3093 {
        reveal_strlit("ん");
        assert(c == '\u{3093}');
    }
}

/// The table has converted `c` among its first `g` rows.
spec fn converted_before(c: char, g: int) -> bool {
    exists|h: int| 0 <= h < g && is_letter_row(h) && #[trigger] row_hira(h) == seq![c]
}

/// The text of hiragana letters `s` once the first `g` rows are applied.
spec fn katakana_upto(s: Seq<char>, g: int) -> Seq<char> {
    Seq::new(s.len(), |i: int| if converted_before(s[i], g) { katakana_of(s[i]) } else { s[i] })
}

spec fn applied_upto(s: Seq<char>, g: int) -> Seq<char> {
    if g <= 26 {
        apply_primary(s, g, KanaColumn::Hirakana, KanaColumn::Katakana)
    } else {
        apply_secondary(
            apply_primary(s, 26, KanaColumn::Hirakana, KanaColumn::Katakana),
            g - 26,
            KanaColumn::Hirakana,
            KanaColumn::Katakana,
        )
    }
}

proof fn lemma_katakana_upto(s: Seq<char>, g: int)
    requires
        0 <= g <= 92,
        forall|i: int| 0 <= i < s.len() ==> is_hiragana_letter(#[trigger] s[i]),
    ensures
        applied_upto(s, g) == katakana_upto(s, g),
    decreases g,
{
    if g == 0 {
        assert(applied_upto(s, 0) =~= katakana_upto(s, 0));
    } else {
        lemma_katakana_upto(s, g - 1);
        lemma_katakana_step(s, g - 1);
    }
}

proof fn lemma_katakana_step(s: Seq<char>, g: int)
    requires
        0 <= g < 92,
        forall|i: int| 0 <= i < s.len() ==> is_hiragana_letter(#[trigger] s[i]),
        applied_upto(s, g) == katakana_upto(s, g),
    ensures
        applied_upto(s, g + 1) == katakana_upto(s, g + 1),
{
    let t = applied_upto(s, g);
    assert(applied_upto(s, g + 1) == replace_all(t, row_hira(g), row_kata(g)));
    if is_letter_row(g) {
        lemma_letter_cells(g);
        let a = row_hira(g)[0];
        assert(row_hira(g) == seq![a]);
        lemma_replace_char(t, a, katakana_of(a));
        assert(applied_upto(s, g + 1) =~= katakana_upto(s, g + 1)) by {
            assert forall|i: int| 0 <= i < s.len() implies swapped(t, a, katakana_of(a))[i] == katakana_upto(
                s,
                g + 1,
            )[i] by {
                let c = s[i];
                assert(is_hiragana_letter(c));
                if converted_before(c, g + 1) && !converted_before(c, g) {
                    let h = choose|h: int| 0 <= h < g + 1 && is_letter_row(h) && #[trigger] row_hira(h) == seq![c];
                    assert(h == g);
                    assert(seq![a][0] == seq![c][0]);
                }
                if converted_before(c, g) {
                    let h = choose|h: int| 0 <= h < g && is_letter_row(h) && #[trigger] row_hira(h) == seq![c];
                    assert(converted_before(c, g + 1));
                }
                if !converted_before(c, g) && c == a {
                    assert(row_hira(g) == seq![c]);
                    assert(converted_before(c, g + 1));
                }
            }
        }
    } else {
        assert forall|c: char| converted_before(c, g + 1) == converted_before(c, g) by {
            if converted_before(c, g + 1) {
                let h = choose|h: int| 0 <= h < g + 1 && is_letter_row(h) && #[trigger] row_hira(h) == seq![c];
                assert(h != g);
                assert(converted_before(c, g));
            }
        }
        assert(katakana_upto(s, g + 1) =~= katakana_upto(s, g));
        if g == 25 {
            reveal_strlit("う゛");
            assert(row_hira(g)[1] == '\u{309b}');
            assert forall|i: int| 0 <= i < t.len() implies #[trigger] t[i] != row_hira(g)[1] by {
                assert(is_hiragana_letter(s[i]));
            }
            lemma_replace_missing(t, row_hira(g), row_kata(g), 1);
        } else {
            assert(row_hira(g) == row_kata(g));
            lemma_replace_same(t, row_hira(g));
        }
    }
}

/// Hiragana letters (U+3041 to U+3093) become katakana one for one: each
/// letter turns into the letter 0x60 code points further on (ぱん → パン).
pub proof fn law_katakana_of_hiragana(s: Seq<char>)
    requires
        forall|i: int| 0 <= i < s.len() ==> is_hiragana_letter(#[trigger] s[i]),
    ensures
        kana_convert(s, KanaColumn::Hirakana, KanaColumn::Katakana) == Seq::new(
            s.len(),
            |i: int| katakana_of(s[i]),
        ),
{
    lemma_katakana_upto(s, 92);
    assert(kana_convert(s, KanaColumn::Hirakana, KanaColumn::Katakana) == applied_upto(s, 92));
    assert forall|i: int| 0 <= i < s.len() implies katakana_upto(s, 92)[i] == katakana_of(s[i]) by {
        lemma_letter_row(s[i]);
        assert(converted_before(s[i], 92));
    }
    assert(katakana_upto(s, 92) =~= Seq::new(s.len(), |i: int| katakana_of(s[i])));
}

/// A katakana letter: U+30A1 (ァ) to U+30F3 (ン).
pub open spec fn is_katakana_letter(c: char) -> bool {
    0x30A1 <= c as u32 <= 0x30F3
}

/// The hiragana letter for a katakana letter: the same letter 0x60 code
/// points back (パ U+30D1 → ぱ U+3071).
pub open spec fn hiragana_of(c: char) -> char {
    ((c as u32) - 0x60) as char
}

spec fn restored_before(c: char, g: int) -> bool {
    exists|h: int| 0 <= h < g && is_letter_row(h) && #[trigger] row_kata(h) == seq![c]
}

spec fn hiragana_upto(t: Seq<char>, g: int) -> Seq<char> {
    Seq::new(t.len(), |i: int| if restored_before(t[i], g) { hiragana_of(t[i]) } else { t[i] })
}

spec fn restored_upto(t: Seq<char>, g: int) -> Seq<char> {
    if g <= 26 {
        apply_primary(t, g, KanaColumn::Katakana, KanaColumn::Hirakana)
    } else {
        apply_secondary(
            apply_primary(t, 26, KanaColumn::Katakana, KanaColumn::Hirakana),
            g - 26,
            KanaColumn::Katakana,
            KanaColumn::Hirakana,
        )
    }
}

proof fn lemma_shift_inverse(c: char)
    ensures
        is_hiragana_letter(c) ==> is_katakana_letter(katakana_of(c)) && hiragana_of(katakana_of(c)) == c,
        is_katakana_letter(c) ==> is_hiragana_letter(hiragana_of(c)) && katakana_of(hiragana_of(c)) == c,
{
    let u = c as u32;
    if is_hiragana_letter(c) {
        let k = katakana_of(c);
        assert(k as u32 == u + 0x60);
        assert(hiragana_of(k) as u32 == u);
    }
    if is_katakana_letter(c) {
        let h = hiragana_of(c);
        assert(h as u32 == u - 0x60);
        assert(katakana_of(h) as u32 == u);
    }
}

proof fn lemma_kata_cells(g: int)
    requires
        is_letter_row(g),
    ensures
        row_kata(g).len() == 1,
        is_katakana_letter(row_kata(g)[0]),
        row_hira(g) == seq![hiragana_of(row_kata(g)[0])],
{
    lemma_letter_cells(g);
    let a = row_hira(g)[0];
    assert(row_hira(g) =~= seq![a]);
    assert(row_kata(g)[0] == katakana_of(a));
    lemma_shift_inverse(a);
}

proof fn lemma_hiragana_step(t: Seq<char>, g: int)
    requires
        0 <= g < 92,
        forall|i: int| 0 <= i < t.len() ==> is_katakana_letter(#[trigger] t[i]),
        restored_upto(t, g) == hiragana_upto(t, g),
    ensures
        restored_upto(t, g + 1) == hiragana_upto(t, g + 1),
{
    let u = restored_upto(t, g);
    assert(restored_upto(t, g + 1) == replace_all(u, row_kata(g), row_hira(g)));
    if is_letter_row(g) {
        lemma_kata_cells(g);
        let a = row_kata(g)[0];
        assert(row_kata(g) == seq![a]);
        lemma_replace_char(u, a, hiragana_of(a));
        assert(restored_upto(t, g + 1) =~= hiragana_upto(t, g + 1)) by {
            assert forall|i: int| 0 <= i < t.len() implies swapped(u, a, hiragana_of(a))[i] == hiragana_upto(
                t,
                g + 1,
            )[i] by {
                let c = t[i];
                assert(is_katakana_letter(c));
                if restored_before(c, g + 1) && !restored_before(c, g) {
                    let h = choose|h: int| 0 <= h < g + 1 && is_letter_row(h) && #[trigger] row_kata(h) == seq![c];
                    assert(h == g);
                    assert(seq![a][0] == seq![c][0]);
                }
                if restored_before(c, g) {
                    assert(restored_before(c, g + 1));
                }
                if !restored_before(c, g) && c == a {
                    assert(row_kata(g) == seq![c]);
                    assert(restored_before(c, g + 1));
                }
            }
        }
    } else {
        assert forall|c: char| restored_before(c, g + 1) == restored_before(c, g) by {
            if restored_before(c, g + 1) {
                let h = choose|h: int| 0 <= h < g + 1 && is_letter_row(h) && #[trigger] row_kata(h) == seq![c];
                assert(h != g);
                assert(restored_before(c, g));
            }
        }
        assert(hiragana_upto(t, g + 1) =~= hiragana_upto(t, g));
        if g == 25 {
            reveal_strlit("ヴ");
            assert(row_kata(g)[0] == '\u{30f4}');
            assert forall|i: int| 0 <= i < u.len() implies #[trigger] u[i] != row_kata(g)[0] by {
                assert(is_katakana_letter(t[i]));
            }
            lemma_replace_missing(u, row_kata(g), row_hira(g), 0);
        } else {
            assert(row_hira(g) == row_kata(g));
            lemma_replace_same(u, row_kata(g));
        }
    }
}

proof fn lemma_hiragana_upto(t: Seq<char>, g: int)
    requires
        0 <= g <= 92,
        forall|i: int| 0 <= i < t.len() ==> is_katakana_letter(#[trigger] t[i]),
    ensures
        restored_upto(t, g) == hiragana_upto(t, g),
    decreases g,
{
    if g == 0 {
        assert(restored_upto(t, 0) =~= hiragana_upto(t, 0));
    } else {
        lemma_hiragana_upto(t, g - 1);
        lemma_hiragana_step(t, g - 1);
    }
}

/// Katakana letters (U+30A1 to U+30F3) become hiragana one for one: each
/// letter turns into the letter 0x60 code points back (パン → ぱん).
pub proof fn law_hiragana_of_katakana(t: Seq<char>)
    requires
        forall|i: int| 0 <= i < t.len() ==> is_katakana_letter(#[trigger] t[i]),
    ensures
        kana_convert(t, KanaColumn::Katakana, KanaColumn::Hirakana) == Seq::new(
            t.len(),
            |i: int| hiragana_of(t[i]),
        ),
{
    lemma_hiragana_upto(t, 92);
    assert(kana_convert(t, KanaColumn::Katakana, KanaColumn::Hirakana) == restored_upto(t, 92));
    assert forall|i: int| 0 <= i < t.len() implies hiragana_upto(t, 92)[i] == hiragana_of(t[i]) by {
        let c = t[i];
        let h = hiragana_of(c);
        lemma_shift_inverse(c);
        assert(is_hiragana_letter(h));
        lemma_letter_row(h);
        lemma_letter_cells(letter_row(h));
        assert(katakana_of(h) == c);
        assert(row_kata(letter_row(h)) == seq![c]);
        assert(restored_before(c, 92));
    }
    assert(hiragana_upto(t, 92) =~= Seq::new(t.len(), |i: int| hiragana_of(t[i])));
}

/// Converting hiragana letters to katakana and back gives them back.
pub proof fn law_kana_round_trip(s: Seq<char>)
    requires
        forall|i: int| 0 <= i < s.len() ==> is_hiragana_letter(#[trigger] s[i]),
    ensures
        kana_convert(kana_convert(s, KanaColumn::Hirakana, KanaColumn::Katakana), KanaColumn::Katakana, KanaColumn::Hirakana)
            == s,
{
    law_katakana_of_hiragana(s);
    let t = Seq::new(s.len(), |i: int| katakana_of(s[i]));
    assert forall|i: int| 0 <= i < t.len() implies is_katakana_letter(#[trigger] t[i]) by {
        assert(is_hiragana_letter(s[i]));
        lemma_shift_inverse(s[i]);
    }
    law_hiragana_of_katakana(t);
    assert forall|i: int| 0 <= i < s.len() implies hiragana_of(t[i]) == s[i] by {
        assert(is_hiragana_letter(s[i]));
        lemma_shift_inverse(s[i]);
    }
    assert(Seq::new(t.len(), |i: int| hiragana_of(t[i])) =~= s);
}

/// Translate hirakana to katakana through the kana tables.
pub fn hirakana_to_katakana(s: &str) -> (r: String)
    ensures
        r@ == kana_convert(s@, KanaColumn::Hirakana, KanaColumn::Katakana),
{
    convert(s, KanaColumn::Hirakana, KanaColumn::Katakana)
}

/// Translate hirakana to jisx0201 kana through the kana tables.
pub fn hirakana_to_jisx0201_kana(s: &str) -> (r: String)
    ensures
        r@ == kana_convert(s@, KanaColumn::Hirakana, KanaColumn::Jisx0201Kana),
{
    convert(s, KanaColumn::Hirakana, KanaColumn::Jisx0201Kana)
}

/// Translate hirakana to roman through the kana tables.
pub fn hirakana_to_roman(s: &str) -> (r: String)
    ensures
        r@ == kana_convert(s@, KanaColumn::Hirakana, KanaColumn::Roman),
{
    convert(s, KanaColumn::Hirakana, KanaColumn::Roman)
}

/// Translate katakana to hirakana through the kana tables.
pub fn katakana_to_hirakana(s: &str) -> (r: String)
    ensures
        r@ == kana_convert(s@, KanaColumn::Katakana, KanaColumn::Hirakana),
{
    convert(s, KanaColumn::Katakana, KanaColumn::Hirakana)
}

/// Translate katakana to jisx0201 kana through the kana tables.
pub fn katakana_to_jisx0201_kana(s: &str) -> (r: String)
    ensures
        r@ == kana_convert(s@, KanaColumn::Katakana, KanaColumn::Jisx0201Kana),
{
    convert(s, KanaColumn::Katakana, KanaColumn::Jisx0201Kana)
}

/// Translate katakana to roman through the kana tables.
pub fn katakana_to_roman(s: &str) -> (r: String)
    ensures
        r@ == kana_convert(s@, KanaColumn::Katakana, KanaColumn::Roman),
{
    convert(s, KanaColumn::Katakana, KanaColumn::Roman)
}

/// Translate jisx0201 kana to hirakana through the kana tables.
pub fn jisx0201_kana_to_hirakana(s: &str) -> (r: String)
    ensures
        r@ == kana_convert(s@, KanaColumn::Jisx0201Kana, KanaColumn::Hirakana),
{
    convert(s, KanaColumn::Jisx0201Kana, KanaColumn::Hirakana)
}

/// Translate jisx0201 kana to katakana through the kana tables.
pub fn jisx0201_kana_to_katakana(s: &str) -> (r: String)
    ensures
        r@ == kana_convert(s@, KanaColumn::Jisx0201Kana, KanaColumn::Katakana),
{
    convert(s, KanaColumn::Jisx0201Kana, KanaColumn::Katakana)
}

/// Translate jisx0201 kana to roman through the kana tables.
pub fn jisx0201_kana_to_roman(s: &str) -> (r: String)
    ensures
        r@ == kana_convert(s@, KanaColumn::Jisx0201Kana, KanaColumn::Roman),
{
    convert(s, KanaColumn::Jisx0201Kana, KanaColumn::Roman)
}

/// The full-width form of the printable ASCII character `0x20 + i`.
pub open spec fn latin_cell(i: int) -> char {
    if i == 0 {
        '　'
    } else if i == 1 {
        '！'
    } else if i == 2 {
        '”'
    } else if i == 3 {
        '＃'
    } else if i == 4 {
        '＄'
    } else if i == 5 {
        '％'
    } else if i == 6 {
        '＆'
    } else if i == 7 {
        '’'
    } else if i == 8 {
        '（'
    } else if i == 9 {
        '）'
    } else if i == 10 {
        '＊'
    } else if i == 11 {
        '＋'
    } else if i == 12 {
        '，'
    } else if i == 13 {
        '−'
    } else if i == 14 {
        '．'
    } else if i == 15 {
        '／'
    } else if i == 16 {
        '０'
    } else if i == 17 {
        '１'
    } else if i == 18 {
        '２'
    } else if i == 19 {
        '３'
    } else if i == 20 {
        '４'
    } else if i == 21 {
        '５'
    } else if i == 22 {
        '６'
    } else if i == 23 {
        '７'
    } else if i == 24 {
        '８'
    } else if i == 25 {
        '９'
    } else if i == 26 {
        '：'
    } else if i == 27 {
        '；'
    } else if i == 28 {
        '＜'
    } else if i == 29 {
        '＝'
    } else if i == 30 {
        '＞'
    } else if i == 31 {
        '？'
    } else if i == 32 {
        '＠'
    } else if i == 33 {
        'Ａ'
    } else if i == 34 {
        'Ｂ'
    } else if i == 35 {
        'Ｃ'
    } else if i == 36 {
        'Ｄ'
    } else if i == 37 {
        'Ｅ'
    } else if i == 38 {
        'Ｆ'
    } else if i == 39 {
        'Ｇ'
    } else if i == 40 {
        'Ｈ'
    } else if i == 41 {
        'Ｉ'
    } else if i == 42 {
        'Ｊ'
    } else if i == 43 {
        'Ｋ'
    } else if i == 44 {
        'Ｌ'
    } else if i == 45 {
        'Ｍ'
    } else if i == 46 {
        'Ｎ'
    } else if i == 47 {
        'Ｏ'
    } else if i == 48 {
        'Ｐ'
    } else if i == 49 {
        'Ｑ'
    } else if i == 50 {
        'Ｒ'
    } else if i == 51 {
        'Ｓ'
    } else if i == 52 {
        'Ｔ'
    } else if i == 53 {
        'Ｕ'
    } else if i == 54 {
        'Ｖ'
    } else if i == 55 {
        'Ｗ'
    } else if i == 56 {
        'Ｘ'
    } else if i == 57 {
        'Ｙ'
    } else if i == 58 {
        'Ｚ'
    } else if i == 59 {
        '［'
    } else if i == 60 {
        '＼'
    } else if i == 61 {
        '］'
    } else if i == 62 {
        '＾'
    } else if i == 63 {
        '＿'
    } else if i == 64 {
        '‘'
    } else if i == 65 {
        'ａ'
    } else if i == 66 {
        'ｂ'
    } else if i == 67 {
        'ｃ'
    } else if i == 68 {
        'ｄ'
    } else if i == 69 {
        'ｅ'
    } else if i == 70 {
        'ｆ'
    } else if i == 71 {
        'ｇ'
    } else if i == 72 {
        'ｈ'
    } else if i == 73 {
        'ｉ'
    } else if i == 74 {
        'ｊ'
    } else if i == 75 {
        'ｋ'
    } else if i == 76 {
        'ｌ'
    } else if i == 77 {
        'ｍ'
    } else if i == 78 {
        'ｎ'
    } else if i == 79 {
        'ｏ'
    } else if i == 80 {
        'ｐ'
    } else if i == 81 {
        'ｑ'
    } else if i == 82 {
        'ｒ'
    } else if i == 83 {
        'ｓ'
    } else if i == 84 {
        'ｔ'
    } else if i == 85 {
        'ｕ'
    } else if i == 86 {
        'ｖ'
    } else if i == 87 {
        'ｗ'
    } else if i == 88 {
        'ｘ'
    } else if i == 89 {
        'ｙ'
    } else if i == 90 {
        'ｚ'
    } else if i == 91 {
        '｛'
    } else if i == 92 {
        '｜'
    } else if i == 93 {
        '｝'
    } else {
        '〜'
    }
}

fn latin(i: u32) -> (c: char)
    requires
        i < 95,
    ensures
        c == latin_cell(i as int),
{
    match i {
        0 => '　',
        1 => '！',
        2 => '”',
        3 => '＃',
        4 => '＄',
        5 => '％',
        6 => '＆',
        7 => '’',
        8 => '（',
        9 => '）',
        10 => '＊',
        11 => '＋',
        12 => '，',
        13 => '−',
        14 => '．',
        15 => '／',
        16 => '０',
        17 => '１',
        18 => '２',
        19 => '３',
        20 => '４',
        21 => '５',
        22 => '６',
        23 => '７',
        24 => '８',
        25 => '９',
        26 => '：',
        27 => '；',
        28 => '＜',
        29 => '＝',
        30 => '＞',
        31 => '？',
        32 => '＠',
        33 => 'Ａ',
        34 => 'Ｂ',
        35 => 'Ｃ',
        36 => 'Ｄ',
        37 => 'Ｅ',
        38 => 'Ｆ',
        39 => 'Ｇ',
        40 => 'Ｈ',
        41 => 'Ｉ',
        42 => 'Ｊ',
        43 => 'Ｋ',
        44 => 'Ｌ',
        45 => 'Ｍ',
        46 => 'Ｎ',
        47 => 'Ｏ',
        48 => 'Ｐ',
        49 => 'Ｑ',
        50 => 'Ｒ',
        51 => 'Ｓ',
        52 => 'Ｔ',
        53 => 'Ｕ',
        54 => 'Ｖ',
        55 => 'Ｗ',
        56 => 'Ｘ',
        57 => 'Ｙ',
        58 => 'Ｚ',
        59 => '［',
        60 => '＼',
        61 => '］',
        62 => '＾',
        63 => '＿',
        64 => '‘',
        65 => 'ａ',
        66 => 'ｂ',
        67 => 'ｃ',
        68 => 'ｄ',
        69 => 'ｅ',
        70 => 'ｆ',
        71 => 'ｇ',
        72 => 'ｈ',
        73 => 'ｉ',
        74 => 'ｊ',
        75 => 'ｋ',
        76 => 'ｌ',
        77 => 'ｍ',
        78 => 'ｎ',
        79 => 'ｏ',
        80 => 'ｐ',
        81 => 'ｑ',
        82 => 'ｒ',
        83 => 'ｓ',
        84 => 'ｔ',
        85 => 'ｕ',
        86 => 'ｖ',
        87 => 'ｗ',
        88 => 'ｘ',
        89 => 'ｙ',
        90 => 'ｚ',
        91 => '｛',
        92 => '｜',
        93 => '｝',
        _ => '〜',
    }
}

/// Full-width form of a character (printable ASCII only).
pub open spec fn to_jisx0208_latin(c: char) -> char {
    if 0x20 <= (c as u32) <= 0x7e {
        latin_cell(c as u32 - 0x20)
    } else {
        c
    }
}

/// The first table index whose full-width character is `c`, searching from `i`.
pub open spec fn latin_index_from(c: char, i: int) -> Option<int>
    decreases 95 - i,
{
    if i >= 95 || i < 0 {
        None
    } else if latin_cell(i) == c {
        Some(i)
    } else {
        latin_index_from(c, i + 1)
    }
}

/// ASCII form of a full-width character (others are kept).
pub open spec fn to_ascii(c: char) -> char {
    match latin_index_from(c, 0) {
        Some(i) => ((0x20 + i) as u8) as char,
        None => c,
    }
}

/// The full-width table has no character twice.
#[verifier::rlimit(100)]
proof fn lemma_latin_cell_injective(i: int, j: int)
    requires
        0 <= i < 95,
        0 <= j < 95,
        i != j,
    ensures
        latin_cell(i) != latin_cell(j),
{
}

proof fn lemma_latin_index(i: int, k: int)
    requires
        0 <= k <= i < 95,
    ensures
        latin_index_from(latin_cell(i), k) == Some(i),
    decreases i - k,
{
    if k < i {
        lemma_latin_cell_injective(i, k);
        lemma_latin_index(i, k + 1);
    }
}

/// The ASCII character at table index `k` is the one `k` was taken from.
proof fn lemma_ascii_of_index(k: int, c: char)
    requires
        0 <= k < 95,
        k == c as u32 - 0x20,
    ensures
        ((0x20 + k) as u8) as char == c,
{
    let v = (0x20 + k) as u8;
    assert(v as u32 == c as u32);
}

/// Printable ASCII made full-width and back is the text it was.
pub proof fn law_latin_roundtrip(s: Seq<char>)
    requires
        forall|i: int| 0 <= i < s.len() ==> 0x20 <= (#[trigger] s[i] as u32) <= 0x7e,
    ensures
        s.map_values(|c: char| to_jisx0208_latin(c)).map_values(|c: char| to_ascii(c)) == s,
{
    let t = s.map_values(|c: char| to_jisx0208_latin(c)).map_values(|c: char| to_ascii(c));
    assert forall|i: int| 0 <= i < s.len() implies t[i] == s[i] by {
        let k = s[i] as u32 - 0x20;
        lemma_latin_index(k, 0);
        lemma_ascii_of_index(k, s[i]);
    }
    assert(t =~= s);
}

/// Translate printable ASCII to JIS X 0208 full-width latin.
pub fn ascii_to_jisx0208_latin(s: &str) -> (r: String)
    ensures
        r@ == s@.map_values(|c: char| to_jisx0208_latin(c)),
{
    let v = chars_of(s);
    let mut out: Vec<char> = Vec::new();
    let mut i: usize = 0;
    while i < v.len()
        invariant
            i <= v.len(),
            out@ == v@.take(i as int).map_values(|c: char| to_jisx0208_latin(c)),
        decreases v.len() - i,
    {
        let c = v[i];
        let code = c as u32;
        if 0x20 <= code && code <= 0x7e {
            out.push(latin(code - 0x20));
        } else {
            out.push(c);
        }
        assert(v@.take(i + 1).map_values(|c: char| to_jisx0208_latin(c)) =~= v@.take(
            i as int,
        ).map_values(|c: char| to_jisx0208_latin(c)).push(to_jisx0208_latin(c)));
        i += 1;
    }
    assert(v@.take(v.len() as int) =~= v@);
    string_of(out.as_slice())
}

fn ascii_of(c: char) -> (r: char)
    ensures
        r == to_ascii(c),
{
    let mut i: u32 = 0;
    while i < 95
        invariant
            i <= 95,
            latin_index_from(c, 0) == latin_index_from(c, i as int),
        decreases 95 - i,
    {
        if latin(i) == c {
            return ((0x20 + i) as u8) as char;
        }
        i += 1;
    }
    c
}

/// Translate JIS X 0208 full-width latin back to ASCII.
pub fn jisx0208_latin_to_ascii(s: &str) -> (r: String)
    ensures
        r@ == s@.map_values(|c: char| to_ascii(c)),
{
    let v = chars_of(s);
    let mut out: Vec<char> = Vec::new();
    let mut i: usize = 0;
    while i < v.len()
        invariant
            i <= v.len(),
            out@ == v@.take(i as int).map_values(|c: char| to_ascii(c)),
        decreases v.len() - i,
    {
        let c = ascii_of(v[i]);
        out.push(c);
        assert(v@.take(i + 1).map_values(|c: char| to_ascii(c)) =~= v@.take(i as int).map_values(
            |c: char| to_ascii(c),
        ).push(to_ascii(v@[i as int])));
        i += 1;
    }
    assert(v@.take(v.len() as int) =~= v@);
    string_of(out.as_slice())
}

} // verus!
