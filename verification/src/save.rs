//! The persisted user options: which language the user plays in, encoded as a
//! single byte. Reading and writing the options file is the caller's concern;
//! this module owns the state and its encoding.

use vstd::prelude::*;

verus! {

/// A display language.
#[derive(Clone, Copy, PartialEq, Eq, Debug)]
pub enum Lang {
    EN,
    FR,
}

/// The persisted options.
pub struct SaveFile {
    pub langage: Lang,
}

/// The byte a language is stored as.
pub open spec fn spec_lang_byte(lang: Lang) -> u8 {
    match lang {
        Lang::EN => 0,
        Lang::FR => 1,
    }
}

/// Encode a language as its stored byte.
pub fn lang_to_byte(lang: Lang) -> (r: u8)
    ensures
        r == spec_lang_byte(lang),
{
    match lang {
        Lang::EN => 0,
        Lang::FR => 1,
    }
}

/// Decode a stored byte: exactly the two known bytes name a language.
pub fn lang_from_byte(b: u8) -> (r: Option<Lang>)
    ensures
        r == Some(Lang::EN) <==> b == 0,
        r == Some(Lang::FR) <==> b == 1,
        r is None <==> b > 1,
{
    if b == 0 {
        Some(Lang::EN)
    } else if b == 1 {
        Some(Lang::FR)
    } else {
        None
    }
}

impl SaveFile {
    /// Fresh options, as used when no options file exists yet.
    pub fn new() -> (r: SaveFile)
        ensures
            r.langage == Lang::EN,
    {
        SaveFile { langage: Lang::EN }
    }

    /// The current language.
    pub fn langage(&self) -> (r: Lang)
        ensures
            r == self.langage,
    {
        self.langage
    }

    /// Switch to the given language. The caller persists the options
    /// afterwards (see [`lang_to_byte`]).
    pub fn set_langage(&mut self, lang: Lang)
        ensures
            final(self).langage == lang,
    {
        self.langage = lang;
    }

    /// Cycle to the next language: the two languages alternate.
    pub fn next_lang(&mut self)
        ensures
            final(self).langage == (match old(self).langage {
                Lang::EN => Lang::FR,
                Lang::FR => Lang::EN,
            }),
    {
        let next = match self.langage {
            Lang::EN => Lang::FR,
            Lang::FR => Lang::EN,
        };
        self.set_langage(next);
    }
}

} // verus!
