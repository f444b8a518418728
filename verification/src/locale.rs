use vstd::prelude::*;

verus! {

/// The two languages the user interface speaks.
#[derive(Debug, Clone, Copy, PartialEq, Eq, Structural)]
pub enum Language {
    Zh,
    En,
}

/// The primary-language part of a Windows LANGID (its low ten bits) that denotes Chinese.
pub const LANG_CHINESE: u16 = 0x04;

impl Language {
    /// The language of a Windows UI LANGID: Chinese when its primary language is Chinese,
    /// English otherwise.
    pub open spec fn spec_detect(lang_id: u16) -> Language {
        if lang_id & 0x3FF == LANG_CHINESE {
            Language::Zh
        } else {
            Language::En
        }
    }

    /// The language for the Windows UI LANGID that `GetUserDefaultUILanguage` gives.
    pub fn detect(lang_id: u16) -> (lang: Language)
        ensures
            lang == Self::spec_detect(lang_id),
    {
        if lang_id & 0x3FF == LANG_CHINESE {
            Language::Zh
        } else {
            Language::En
        }
    }

    /// Returns the Chinese or the English text, by the language.
    pub fn t<'a>(&self, zh: &'a str, en: &'a str) -> (text: &'a str)
        ensures
            *self == Language::Zh ==> text == zh,
            *self == Language::En ==> text == en,
    {
        match self {
            Language::Zh => zh,
            Language::En => en,
        }
    }
}

} // verus!
