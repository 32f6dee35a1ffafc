use vstd::prelude::*;

verus! {

/// Classification of a single hiragana or katakana character.
///
/// The table below is the single source of truth for the syllabary:
/// each covered character maps to exactly one descriptor, so the
/// mapping is injective by construction.
#[derive(Debug, Copy, Clone, PartialEq)]
pub enum Kana {
    /// The gemination marker, either katakana or hiragana small tsu.
    SmallTsu(char),
    /// Small variants used in digraphs (for example small yu or small e).
    Small(char, DigraphSuffix),
    /// The katakana long bar, which lengthens the preceding vowel.
    Bar(char),
    /// A character that does not introduce a custom digraph prefix.
    ///
    /// The first element is the character, the second its romaji
    /// syllable.
    Chr(char, &'static str),
    /// A character that can also form a custom digraph.
    ///
    /// The first element is the character, the second its romaji
    /// syllable and the third the additional digraph prefix.
    Dig(char, &'static str, DigraphPrefix),
}

/// Digraph suffixes carried by the small variants of kana characters.
#[derive(Debug, Copy, Clone, PartialEq)]
pub enum DigraphSuffix {
    Ya,
    Yu,
    Yo,
    A,
    I,
    U,
    E,
    O,
}

/// Additional digraph prefixes for the digraph-capable characters.
#[derive(Debug, Copy, Clone, PartialEq)]
pub enum DigraphPrefix {
    W,
    Y,
    K,
    G,
}

/// The full character table as a specification-level lookup: the
/// descriptor for a covered kana character, `None` for anything else.
/// Kept opaque: callers learn the descriptor through [`Kana::get`].
#[verifier::opaque]
pub open spec fn spec_kana(chr: char) -> Option<Kana> {
    match chr {
        'ッ' => Some(Kana::SmallTsu('ッ')),
        'ャ' => Some(Kana::Small('ャ', DigraphSuffix::Ya)),
        'ュ' => Some(Kana::Small('ュ', DigraphSuffix::Yu)),
        'ョ' => Some(Kana::Small('ョ', DigraphSuffix::Yo)),
        'ァ' => Some(Kana::Small('ァ', DigraphSuffix::A)),
        'ィ' => Some(Kana::Small('ィ', DigraphSuffix::I)),
        'ゥ' => Some(Kana::Small('ゥ', DigraphSuffix::U)),
        'ェ' => Some(Kana::Small('ェ', DigraphSuffix::E)),
        'ォ' => Some(Kana::Small('ォ', DigraphSuffix::O)),
        'ヴ' => Some(Kana::Chr('ヴ', "vu")),
        'ー' => Some(Kana::Bar('ー')),
        'ア' => Some(Kana::Chr('ア', "a")),
        'イ' => Some(Kana::Dig('イ', "i", DigraphPrefix::Y)),
        'ウ' => Some(Kana::Dig('ウ', "u", DigraphPrefix::W)),
        'エ' => Some(Kana::Chr('エ', "e")),
        'オ' => Some(Kana::Chr('オ', "o")),
        'カ' => Some(Kana::Chr('カ', "ka")),
        'キ' => Some(Kana::Chr('キ', "ki")),
        'ク' => Some(Kana::Dig('ク', "ku", DigraphPrefix::K)),
        'ケ' => Some(Kana::Chr('ケ', "ke")),
        'コ' => Some(Kana::Chr('コ', "ko")),
        'ガ' => Some(Kana::Chr('ガ', "ga")),
        'ギ' => Some(Kana::Chr('ギ', "gi")),
        'グ' => Some(Kana::Dig('グ', "gu", DigraphPrefix::G)),
        'ゲ' => Some(Kana::Chr('ゲ', "ge")),
        'ゴ' => Some(Kana::Chr('ゴ', "go")),
        'サ' => Some(Kana::Chr('サ', "sa")),
        'シ' => Some(Kana::Chr('シ', "shi")),
        'ス' => Some(Kana::Chr('ス', "su")),
        'セ' => Some(Kana::Chr('セ', "se")),
        'ソ' => Some(Kana::Chr('ソ', "so")),
        'ザ' => Some(Kana::Chr('ザ', "za")),
        'ジ' => Some(Kana::Chr('ジ', "ji")),
        'ズ' => Some(Kana::Chr('ズ', "zu")),
        'ゼ' => Some(Kana::Chr('ゼ', "ze")),
        'ゾ' => Some(Kana::Chr('ゾ', "zo")),
        'タ' => Some(Kana::Chr('タ', "ta")),
        'チ' => Some(Kana::Chr('チ', "chi")),
        'ツ' => Some(Kana::Chr('ツ', "tsu")),
        'テ' => Some(Kana::Chr('テ', "te")),
        'ト' => Some(Kana::Chr('ト', "to")),
        'ダ' => Some(Kana::Chr('ダ', "da")),
        'ヂ' => Some(Kana::Chr('ヂ', "dji")),
        'ヅ' => Some(Kana::Chr('ヅ', "dzu")),
        'デ' => Some(Kana::Chr('デ', "de")),
        'ド' => Some(Kana::Chr('ド', "do")),
        'ナ' => Some(Kana::Chr('ナ', "na")),
        'ニ' => Some(Kana::Chr('ニ', "ni")),
        'ヌ' => Some(Kana::Chr('ヌ', "nu")),
        'ネ' => Some(Kana::Chr('ネ', "ne")),
        'ノ' => Some(Kana::Chr('ノ', "no")),
        'ハ' => Some(Kana::Chr('ハ', "ha")),
        'ヒ' => Some(Kana::Chr('ヒ', "hi")),
        'フ' => Some(Kana::Chr('フ', "fu")),
        'ヘ' => Some(Kana::Chr('ヘ', "he")),
        'ホ' => Some(Kana::Chr('ホ', "ho")),
        'バ' => Some(Kana::Chr('バ', "ba")),
        'ビ' => Some(Kana::Chr('ビ', "bi")),
        'ブ' => Some(Kana::Chr('ブ', "bu")),
        'ベ' => Some(Kana::Chr('ベ', "be")),
        'ボ' => Some(Kana::Chr('ボ', "bo")),
        'パ' => Some(Kana::Chr('パ', "pa")),
        'ピ' => Some(Kana::Chr('ピ', "pi")),
        'プ' => Some(Kana::Chr('プ', "pu")),
        'ペ' => Some(Kana::Chr('ペ', "pe")),
        'ポ' => Some(Kana::Chr('ポ', "po")),
        'マ' => Some(Kana::Chr('マ', "ma")),
        'ミ' => Some(Kana::Chr('ミ', "mi")),
        'ム' => Some(Kana::Chr('ム', "mu")),
        'メ' => Some(Kana::Chr('メ', "me")),
        'モ' => Some(Kana::Chr('モ', "mo")),
        'ヤ' => Some(Kana::Chr('ヤ', "ya")),
        'ユ' => Some(Kana::Chr('ユ', "yu")),
        'ヨ' => Some(Kana::Chr('ヨ', "yo")),
        'ラ' => Some(Kana::Chr('ラ', "ra")),
        'リ' => Some(Kana::Chr('リ', "ri")),
        'ル' => Some(Kana::Chr('ル', "ru")),
        'レ' => Some(Kana::Chr('レ', "re")),
        'ロ' => Some(Kana::Chr('ロ', "ro")),
        'ワ' => Some(Kana::Chr('ワ', "wa")),
        'ヲ' => Some(Kana::Chr('ヲ', "wo")),
        'ン' => Some(Kana::Chr('ン', "n")),
        'っ' => Some(Kana::SmallTsu('っ')),
        'ゃ' => Some(Kana::Small('ゃ', DigraphSuffix::Ya)),
        'ゅ' => Some(Kana::Small('ゅ', DigraphSuffix::Yu)),
        'ょ' => Some(Kana::Small('ょ', DigraphSuffix::Yo)),
        'ぁ' => Some(Kana::Small('ぁ', DigraphSuffix::A)),
        'ぃ' => Some(Kana::Small('ぃ', DigraphSuffix::I)),
        'ぅ' => Some(Kana::Small('ぅ', DigraphSuffix::U)),
        'ぇ' => Some(Kana::Small('ぇ', DigraphSuffix::E)),
        'ぉ' => Some(Kana::Small('ぉ', DigraphSuffix::O)),
        'あ' => Some(Kana::Chr('あ', "a")),
        'い' => Some(Kana::Chr('い', "i")),
        'う' => Some(Kana::Chr('う', "u")),
        'え' => Some(Kana::Chr('え', "e")),
        'お' => Some(Kana::Chr('お', "o")),
        'か' => Some(Kana::Chr('か', "ka")),
        'き' => Some(Kana::Chr('き', "ki")),
        'く' => Some(Kana::Chr('く', "ku")),
        'け' => Some(Kana::Chr('け', "ke")),
        'こ' => Some(Kana::Chr('こ', "ko")),
        'が' => Some(Kana::Chr('が', "ga")),
        'ぎ' => Some(Kana::Chr('ぎ', "gi")),
        'ぐ' => Some(Kana::Chr('ぐ', "gu")),
        'げ' => Some(Kana::Chr('げ', "ge")),
        'ご' => Some(Kana::Chr('ご', "go")),
        'さ' => Some(Kana::Chr('さ', "sa")),
        'し' => Some(Kana::Chr('し', "shi")),
        'す' => Some(Kana::Chr('す', "su")),
        'せ' => Some(Kana::Chr('せ', "se")),
        'そ' => Some(Kana::Chr('そ', "so")),
        'ざ' => Some(Kana::Chr('ざ', "za")),
        'じ' => Some(Kana::Chr('じ', "ji")),
        'ず' => Some(Kana::Chr('ず', "zu")),
        'ぜ' => Some(Kana::Chr('ぜ', "ze")),
        'ぞ' => Some(Kana::Chr('ぞ', "zo")),
        'た' => Some(Kana::Chr('た', "ta")),
        'ち' => Some(Kana::Chr('ち', "chi")),
        'つ' => Some(Kana::Chr('つ', "tsu")),
        'て' => Some(Kana::Chr('て', "te")),
        'と' => Some(Kana::Chr('と', "to")),
        'だ' => Some(Kana::Chr('だ', "da")),
        'ぢ' => Some(Kana::Chr('ぢ', "dji")),
        'づ' => Some(Kana::Chr('づ', "dzu")),
        'で' => Some(Kana::Chr('で', "de")),
        'ど' => Some(Kana::Chr('ど', "do")),
        'な' => Some(Kana::Chr('な', "na")),
        'に' => Some(Kana::Chr('に', "ni")),
        'ぬ' => Some(Kana::Chr('ぬ', "nu")),
        'ね' => Some(Kana::Chr('ね', "ne")),
        'の' => Some(Kana::Chr('の', "no")),
        'は' => Some(Kana::Chr('は', "ha")),
        'ひ' => Some(Kana::Chr('ひ', "hi")),
        'ふ' => Some(Kana::Chr('ふ', "fu")),
        'へ' => Some(Kana::Chr('へ', "he")),
        'ほ' => Some(Kana::Chr('ほ', "ho")),
        'ば' => Some(Kana::Chr('ば', "ba")),
        'び' => Some(Kana::Chr('び', "bi")),
        'ぶ' => Some(Kana::Chr('ぶ', "bu")),
        'べ' => Some(Kana::Chr('べ', "be")),
        'ぼ' => Some(Kana::Chr('ぼ', "bo")),
        'ぱ' => Some(Kana::Chr('ぱ', "pa")),
        'ぴ' => Some(Kana::Chr('ぴ', "pi")),
        'ぷ' => Some(Kana::Chr('ぷ', "pu")),
        'ぺ' => Some(Kana::Chr('ぺ', "pe")),
        'ぽ' => Some(Kana::Chr('ぽ', "po")),
        'ま' => Some(Kana::Chr('ま', "ma")),
        'み' => Some(Kana::Chr('み', "mi")),
        'む' => Some(Kana::Chr('む', "mu")),
        'め' => Some(Kana::Chr('め', "me")),
        'も' => Some(Kana::Chr('も', "mo")),
        'や' => Some(Kana::Chr('や', "ya")),
        'ゆ' => Some(Kana::Chr('ゆ', "yu")),
        'よ' => Some(Kana::Chr('よ', "yo")),
        'ら' => Some(Kana::Chr('ら', "ra")),
        'り' => Some(Kana::Chr('り', "ri")),
        'る' => Some(Kana::Chr('る', "ru")),
        'れ' => Some(Kana::Chr('れ', "re")),
        'ろ' => Some(Kana::Chr('ろ', "ro")),
        'わ' => Some(Kana::Chr('わ', "wa")),
        'を' => Some(Kana::Chr('を', "wo")),
        'ん' => Some(Kana::Chr('ん', "n")),
        _ => None,
    }
}

impl Kana {
    /// Looks a `Kana` character up by its `char`.
    pub fn get(chr: char) -> (r: Option<Kana>)
        ensures
            r == spec_kana(chr),
    {
        proof {
            reveal(spec_kana);
        }
        match chr {
            'ッ' => Some(Kana::SmallTsu('ッ')),
            'ャ' => Some(Kana::Small('ャ', DigraphSuffix::Ya)),
            'ュ' => Some(Kana::Small('ュ', DigraphSuffix::Yu)),
            'ョ' => Some(Kana::Small('ョ', DigraphSuffix::Yo)),
            'ァ' => Some(Kana::Small('ァ', DigraphSuffix::A)),
            'ィ' => Some(Kana::Small('ィ', DigraphSuffix::I)),
            'ゥ' => Some(Kana::Small('ゥ', DigraphSuffix::U)),
            'ェ' => Some(Kana::Small('ェ', DigraphSuffix::E)),
            'ォ' => Some(Kana::Small('ォ', DigraphSuffix::O)),
            'ヴ' => Some(Kana::Chr('ヴ', "vu")),
            'ー' => Some(Kana::Bar('ー')),
            'ア' => Some(Kana::Chr('ア', "a")),
            'イ' => Some(Kana::Dig('イ', "i", DigraphPrefix::Y)),
            'ウ' => Some(Kana::Dig('ウ', "u", DigraphPrefix::W)),
            'エ' => Some(Kana::Chr('エ', "e")),
            'オ' => Some(Kana::Chr('オ', "o")),
            'カ' => Some(Kana::Chr('カ', "ka")),
            'キ' => Some(Kana::Chr('キ', "ki")),
            'ク' => Some(Kana::Dig('ク', "ku", DigraphPrefix::K)),
            'ケ' => Some(Kana::Chr('ケ', "ke")),
            'コ' => Some(Kana::Chr('コ', "ko")),
            'ガ' => Some(Kana::Chr('ガ', "ga")),
            'ギ' => Some(Kana::Chr('ギ', "gi")),
            'グ' => Some(Kana::Dig('グ', "gu", DigraphPrefix::G)),
            'ゲ' => Some(Kana::Chr('ゲ', "ge")),
            'ゴ' => Some(Kana::Chr('ゴ', "go")),
            'サ' => Some(Kana::Chr('サ', "sa")),
            'シ' => Some(Kana::Chr('シ', "shi")),
            'ス' => Some(Kana::Chr('ス', "su")),
            'セ' => Some(Kana::Chr('セ', "se")),
            'ソ' => Some(Kana::Chr('ソ', "so")),
            'ザ' => Some(Kana::Chr('ザ', "za")),
            'ジ' => Some(Kana::Chr('ジ', "ji")),
            'ズ' => Some(Kana::Chr('ズ', "zu")),
            'ゼ' => Some(Kana::Chr('ゼ', "ze")),
            'ゾ' => Some(Kana::Chr('ゾ', "zo")),
            'タ' => Some(Kana::Chr('タ', "ta")),
            'チ' => Some(Kana::Chr('チ', "chi")),
            'ツ' => Some(Kana::Chr('ツ', "tsu")),
            'テ' => Some(Kana::Chr('テ', "te")),
            'ト' => Some(Kana::Chr('ト', "to")),
            'ダ' => Some(Kana::Chr('ダ', "da")),
            'ヂ' => Some(Kana::Chr('ヂ', "dji")),
            'ヅ' => Some(Kana::Chr('ヅ', "dzu")),
            'デ' => Some(Kana::Chr('デ', "de")),
            'ド' => Some(Kana::Chr('ド', "do")),
            'ナ' => Some(Kana::Chr('ナ', "na")),
            'ニ' => Some(Kana::Chr('ニ', "ni")),
            'ヌ' => Some(Kana::Chr('ヌ', "nu")),
            'ネ' => Some(Kana::Chr('ネ', "ne")),
            'ノ' => Some(Kana::Chr('ノ', "no")),
            'ハ' => Some(Kana::Chr('ハ', "ha")),
            'ヒ' => Some(Kana::Chr('ヒ', "hi")),
            'フ' => Some(Kana::Chr('フ', "fu")),
            'ヘ' => Some(Kana::Chr('ヘ', "he")),
            'ホ' => Some(Kana::Chr('ホ', "ho")),
            'バ' => Some(Kana::Chr('バ', "ba")),
            'ビ' => Some(Kana::Chr('ビ', "bi")),
            'ブ' => Some(Kana::Chr('ブ', "bu")),
            'ベ' => Some(Kana::Chr('ベ', "be")),
            'ボ' => Some(Kana::Chr('ボ', "bo")),
            'パ' => Some(Kana::Chr('パ', "pa")),
            'ピ' => Some(Kana::Chr('ピ', "pi")),
            'プ' => Some(Kana::Chr('プ', "pu")),
            'ペ' => Some(Kana::Chr('ペ', "pe")),
            'ポ' => Some(Kana::Chr('ポ', "po")),
            'マ' => Some(Kana::Chr('マ', "ma")),
            'ミ' => Some(Kana::Chr('ミ', "mi")),
            'ム' => Some(Kana::Chr('ム', "mu")),
            'メ' => Some(Kana::Chr('メ', "me")),
            'モ' => Some(Kana::Chr('モ', "mo")),
            'ヤ' => Some(Kana::Chr('ヤ', "ya")),
            'ユ' => Some(Kana::Chr('ユ', "yu")),
            'ヨ' => Some(Kana::Chr('ヨ', "yo")),
            'ラ' => Some(Kana::Chr('ラ', "ra")),
            'リ' => Some(Kana::Chr('リ', "ri")),
            'ル' => Some(Kana::Chr('ル', "ru")),
            'レ' => Some(Kana::Chr('レ', "re")),
            'ロ' => Some(Kana::Chr('ロ', "ro")),
            'ワ' => Some(Kana::Chr('ワ', "wa")),
            'ヲ' => Some(Kana::Chr('ヲ', "wo")),
            'ン' => Some(Kana::Chr('ン', "n")),
            'っ' => Some(Kana::SmallTsu('っ')),
            'ゃ' => Some(Kana::Small('ゃ', DigraphSuffix::Ya)),
            'ゅ' => Some(Kana::Small('ゅ', DigraphSuffix::Yu)),
            'ょ' => Some(Kana::Small('ょ', DigraphSuffix::Yo)),
            'ぁ' => Some(Kana::Small('ぁ', DigraphSuffix::A)),
            'ぃ' => Some(Kana::Small('ぃ', DigraphSuffix::I)),
            'ぅ' => Some(Kana::Small('ぅ', DigraphSuffix::U)),
            'ぇ' => Some(Kana::Small('ぇ', DigraphSuffix::E)),
            'ぉ' => Some(Kana::Small('ぉ', DigraphSuffix::O)),
            'あ' => Some(Kana::Chr('あ', "a")),
            'い' => Some(Kana::Chr('い', "i")),
            'う' => Some(Kana::Chr('う', "u")),
            'え' => Some(Kana::Chr('え', "e")),
            'お' => Some(Kana::Chr('お', "o")),
            'か' => Some(Kana::Chr('か', "ka")),
            'き' => Some(Kana::Chr('き', "ki")),
            'く' => Some(Kana::Chr('く', "ku")),
            'け' => Some(Kana::Chr('け', "ke")),
            'こ' => Some(Kana::Chr('こ', "ko")),
            'が' => Some(Kana::Chr('が', "ga")),
            'ぎ' => Some(Kana::Chr('ぎ', "gi")),
            'ぐ' => Some(Kana::Chr('ぐ', "gu")),
            'げ' => Some(Kana::Chr('げ', "ge")),
            'ご' => Some(Kana::Chr('ご', "go")),
            'さ' => Some(Kana::Chr('さ', "sa")),
            'し' => Some(Kana::Chr('し', "shi")),
            'す' => Some(Kana::Chr('す', "su")),
            'せ' => Some(Kana::Chr('せ', "se")),
            'そ' => Some(Kana::Chr('そ', "so")),
            'ざ' => Some(Kana::Chr('ざ', "za")),
            'じ' => Some(Kana::Chr('じ', "ji")),
            'ず' => Some(Kana::Chr('ず', "zu")),
            'ぜ' => Some(Kana::Chr('ぜ', "ze")),
            'ぞ' => Some(Kana::Chr('ぞ', "zo")),
            'た' => Some(Kana::Chr('た', "ta")),
            'ち' => Some(Kana::Chr('ち', "chi")),
            'つ' => Some(Kana::Chr('つ', "tsu")),
            'て' => Some(Kana::Chr('て', "te")),
            'と' => Some(Kana::Chr('と', "to")),
            'だ' => Some(Kana::Chr('だ', "da")),
            'ぢ' => Some(Kana::Chr('ぢ', "dji")),
            'づ' => Some(Kana::Chr('づ', "dzu")),
            'で' => Some(Kana::Chr('で', "de")),
            'ど' => Some(Kana::Chr('ど', "do")),
            'な' => Some(Kana::Chr('な', "na")),
            'に' => Some(Kana::Chr('に', "ni")),
            'ぬ' => Some(Kana::Chr('ぬ', "nu")),
            'ね' => Some(Kana::Chr('ね', "ne")),
            'の' => Some(Kana::Chr('の', "no")),
            'は' => Some(Kana::Chr('は', "ha")),
            'ひ' => Some(Kana::Chr('ひ', "hi")),
            'ふ' => Some(Kana::Chr('ふ', "fu")),
            'へ' => Some(Kana::Chr('へ', "he")),
            'ほ' => Some(Kana::Chr('ほ', "ho")),
            'ば' => Some(Kana::Chr('ば', "ba")),
            'び' => Some(Kana::Chr('び', "bi")),
            'ぶ' => Some(Kana::Chr('ぶ', "bu")),
            'べ' => Some(Kana::Chr('べ', "be")),
            'ぼ' => Some(Kana::Chr('ぼ', "bo")),
            'ぱ' => Some(Kana::Chr('ぱ', "pa")),
            'ぴ' => Some(Kana::Chr('ぴ', "pi")),
            'ぷ' => Some(Kana::Chr('ぷ', "pu")),
            'ぺ' => Some(Kana::Chr('ぺ', "pe")),
            'ぽ' => Some(Kana::Chr('ぽ', "po")),
            'ま' => Some(Kana::Chr('ま', "ma")),
            'み' => Some(Kana::Chr('み', "mi")),
            'む' => Some(Kana::Chr('む', "mu")),
            'め' => Some(Kana::Chr('め', "me")),
            'も' => Some(Kana::Chr('も', "mo")),
            'や' => Some(Kana::Chr('や', "ya")),
            'ゆ' => Some(Kana::Chr('ゆ', "yu")),
            'よ' => Some(Kana::Chr('よ', "yo")),
            'ら' => Some(Kana::Chr('ら', "ra")),
            'り' => Some(Kana::Chr('り', "ri")),
            'る' => Some(Kana::Chr('る', "ru")),
            'れ' => Some(Kana::Chr('れ', "re")),
            'ろ' => Some(Kana::Chr('ろ', "ro")),
            'わ' => Some(Kana::Chr('わ', "wa")),
            'を' => Some(Kana::Chr('を', "wo")),
            'ん' => Some(Kana::Chr('ん', "n")),
            _ => None,
        }
    }

    /// The `char` a descriptor was built for.
    pub open spec fn spec_char(&self) -> char {
        match self {
            Kana::SmallTsu(chr) => *chr,
            Kana::Small(chr, _) => *chr,
            Kana::Bar(chr) => *chr,
            Kana::Chr(chr, _) => *chr,
            Kana::Dig(chr, _, _) => *chr,
        }
    }

    /// Returns the `char` for a `Kana` descriptor.
    pub fn get_char(&self) -> (c: char)
        ensures
            c == self.spec_char(),
    {
        match self {
            Kana::SmallTsu(chr) => *chr,
            Kana::Small(chr, _) => *chr,
            Kana::Bar(chr) => *chr,
            Kana::Chr(chr, _) => *chr,
            Kana::Dig(chr, _, _) => *chr,
        }
    }
}

impl DigraphSuffix {
    /// The romaji spelling of a digraph suffix, as a character sequence.
    pub open spec fn spec_str(&self) -> Seq<char> {
        match self {
            DigraphSuffix::Ya => "ya"@,
            DigraphSuffix::Yu => "yu"@,
            DigraphSuffix::Yo => "yo"@,
            DigraphSuffix::A => "a"@,
            DigraphSuffix::I => "i"@,
            DigraphSuffix::U => "u"@,
            DigraphSuffix::E => "e"@,
            DigraphSuffix::O => "o"@,
        }
    }

    /// The romaji spelling of a digraph suffix.
    pub fn as_str(&self) -> (r: &'static str)
        ensures
            r@ == self.spec_str(),
    {
        match self {
            DigraphSuffix::Ya => "ya",
            DigraphSuffix::Yu => "yu",
            DigraphSuffix::Yo => "yo",
            DigraphSuffix::A => "a",
            DigraphSuffix::I => "i",
            DigraphSuffix::U => "u",
            DigraphSuffix::E => "e",
            DigraphSuffix::O => "o",
        }
    }
}

impl DigraphPrefix {
    /// The replacement syllable a digraph-capable character turns into
    /// when followed by a small digraph suffix, as a character sequence.
    pub open spec fn spec_str(&self) -> Seq<char> {
        match self {
            DigraphPrefix::W => "wa"@,
            DigraphPrefix::Y => "ya"@,
            DigraphPrefix::K => "kwa"@,
            DigraphPrefix::G => "gwa"@,
        }
    }

    /// The replacement syllable a digraph-capable character turns into
    /// when followed by a small digraph suffix.
    pub fn as_str(&self) -> (r: &'static str)
        ensures
            r@ == self.spec_str(),
    {
        match self {
            DigraphPrefix::W => "wa",
            DigraphPrefix::Y => "ya",
            DigraphPrefix::K => "kwa",
            DigraphPrefix::G => "gwa",
        }
    }
}

/// Every romaji spelling in the table has one to three letters.
pub proof fn lemma_kana_lens(c: char)
    ensures
        match spec_kana(c) {
            Some(Kana::Chr(_, r)) => 1 <= r@.len() <= 3,
            Some(Kana::Dig(_, r, _)) => 1 <= r@.len() <= 3,
            _ => true,
        },
{
    reveal(spec_kana);
    reveal_strlit("a");
    reveal_strlit("ba");
    reveal_strlit("be");
    reveal_strlit("bi");
    reveal_strlit("bo");
    reveal_strlit("bu");
    reveal_strlit("chi");
    reveal_strlit("da");
    reveal_strlit("de");
    reveal_strlit("dji");
    reveal_strlit("do");
    reveal_strlit("dzu");
    reveal_strlit("e");
    reveal_strlit("fu");
    reveal_strlit("ga");
    reveal_strlit("ge");
    reveal_strlit("gi");
    reveal_strlit("go");
    reveal_strlit("gu");
    reveal_strlit("ha");
    reveal_strlit("he");
    reveal_strlit("hi");
    reveal_strlit("ho");
    reveal_strlit("i");
    reveal_strlit("ji");
    reveal_strlit("ka");
    reveal_strlit("ke");
    reveal_strlit("ki");
    reveal_strlit("ko");
    reveal_strlit("ku");
    reveal_strlit("ma");
    reveal_strlit("me");
    reveal_strlit("mi");
    reveal_strlit("mo");
    reveal_strlit("mu");
    reveal_strlit("n");
    reveal_strlit("na");
    reveal_strlit("ne");
    reveal_strlit("ni");
    reveal_strlit("no");
    reveal_strlit("nu");
    reveal_strlit("o");
    reveal_strlit("pa");
    reveal_strlit("pe");
    reveal_strlit("pi");
    reveal_strlit("po");
    reveal_strlit("pu");
    reveal_strlit("ra");
    reveal_strlit("re");
    reveal_strlit("ri");
    reveal_strlit("ro");
    reveal_strlit("ru");
    reveal_strlit("sa");
    reveal_strlit("se");
    reveal_strlit("shi");
    reveal_strlit("so");
    reveal_strlit("su");
    reveal_strlit("ta");
    reveal_strlit("te");
    reveal_strlit("to");
    reveal_strlit("tsu");
    reveal_strlit("u");
    reveal_strlit("vu");
    reveal_strlit("wa");
    reveal_strlit("wo");
    reveal_strlit("ya");
    reveal_strlit("yo");
    reveal_strlit("yu");
    reveal_strlit("za");
    reveal_strlit("ze");
    reveal_strlit("zo");
    reveal_strlit("zu");
}

/// Every digraph suffix spelling has one or two letters, and one that
/// starts with `y` has two.
pub proof fn lemma_suffix_lens(s: DigraphSuffix)
    ensures
        1 <= s.spec_str().len() <= 2,
        s.spec_str()[0] == 'y' ==> s.spec_str().len() == 2,
{
    reveal_strlit("ya");
    reveal_strlit("yu");
    reveal_strlit("yo");
    reveal_strlit("a");
    reveal_strlit("i");
    reveal_strlit("u");
    reveal_strlit("e");
    reveal_strlit("o");
}

/// Every digraph prefix spelling has two or three letters.
pub proof fn lemma_prefix_lens(p: DigraphPrefix)
    ensures
        2 <= p.spec_str().len() <= 3,
{
    reveal_strlit("wa");
    reveal_strlit("ya");
    reveal_strlit("kwa");
    reveal_strlit("gwa");
}

} // verus!
