//! The languages of the interface.

use vstd::prelude::*;

verus! {

/// A language that the interface can be shown in.
#[derive(Debug, Clone, Copy, PartialEq, Eq, Structural)]
pub enum Language {
    English,
    SimplifiedChinese,
}

impl Language {
    /// The code of the locale of this language.
    pub open spec fn locale(self) -> Seq<char> {
        match self {
            Language::English => "en-US"@,
            Language::SimplifiedChinese => "zh-CN"@,
        }
    }

    /// The name of this language in the language itself.
    pub open spec fn native_name(self) -> Seq<char> {
        match self {
            Language::English => "English"@,
            Language::SimplifiedChinese => "简体中文"@,
        }
    }

    /// The language of a locale code: English for every code but that of
    /// simplified Chinese.
    pub open spec fn of_code(code: Seq<char>) -> Language {
        if code == "zh-CN"@ {
            Language::SimplifiedChinese
        } else {
            Language::English
        }
    }

    /// The code of the locale of this language.
    pub fn code(&self) -> (code: &'static str)
        ensures
            code@ == self.locale(),
    {
        match self {
            Language::English => "en-US",
            Language::SimplifiedChinese => "zh-CN",
        }
    }

    /// The name of this language in the language itself.
    pub fn display_name(&self) -> (name: &'static str)
        ensures
            name@ == self.native_name(),
    {
        match self {
            Language::English => "English",
            Language::SimplifiedChinese => "简体中文",
        }
    }

    /// The language of a locale code; a code that is not known gives
    /// English.
    pub fn from_code(code: String) -> (language: Language)
        ensures
            language == Language::of_code(code@),
    {
        proof {
            reveal_strlit("en-US");
            reveal_strlit("zh-CN");
            assert("en-US"@[0] != "zh-CN"@[0]);
        }
        if code == "en-US".to_owned() {
            Language::English
        } else if code == "zh-CN".to_owned() {
            Language::SimplifiedChinese
        } else {
            Language::English
        }
    }

    /// The name of this language in the language itself.
    pub fn to_string(&self) -> (name: String)
        ensures
            name@ == self.native_name(),
    {
        self.display_name().to_owned()
    }
}

/// The code of a language gives the language back.
pub proof fn lemma_code_round_trip(language: Language)
    ensures
        Language::of_code(language.locale()) == language,
{
    reveal_strlit("en-US");
    reveal_strlit("zh-CN");
    assert("en-US"@[0] != "zh-CN"@[0]);
}

} // verus!
