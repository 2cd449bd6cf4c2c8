//! UI language selection: the supported languages and the mapping to and from
//! locale codes.
use vstd::prelude::*;

use crate::text::{before_any, before_any_exec, chars_eq, chars_of, lower_all, lower_vec};

verus! {

/// A supported user-interface language.
#[derive(Debug, Clone, Copy, PartialEq, Eq, Structural)]
pub enum Lang {
    English,
    Dutch,
}

/// The locale code of `l`, matching the `locales/<code>.yml` file name.
pub open spec fn lang_code(l: Lang) -> Seq<char> {
    match l {
        Lang::English => seq!['e', 'n'],
        Lang::Dutch => seq!['n', 'l'],
    }
}

/// The language's own name.
pub open spec fn lang_native_name(l: Lang) -> Seq<char> {
    match l {
        Lang::English => seq!['E', 'n', 'g', 'l', 'i', 's', 'h'],
        Lang::Dutch => seq!['N', 'e', 'd', 'e', 'r', 'l', 'a', 'n', 'd', 's'],
    }
}

/// The primary subtag of a BCP-47 style locale tag: everything before the
/// first `-` or `_`, ASCII-lowercased.
pub open spec fn primary_subtag(tag: Seq<char>) -> Seq<char> {
    lower_all(before_any(tag, seq!['-', '_']))
}

/// The supported language whose code is `primary`, if any, searching in menu
/// order.
pub open spec fn lang_for_code(primary: Seq<char>) -> Option<Lang> {
    if primary == lang_code(Lang::English) {
        Some(Lang::English)
    } else if primary == lang_code(Lang::Dutch) {
        Some(Lang::Dutch)
    } else {
        None
    }
}

impl Lang {
    /// Every language, in menu order (English, the source language, first).
    pub const ALL: [Lang; 2] = [Lang::English, Lang::Dutch];

    /// The locale code, matching the `locales/<code>.yml` file name.
    pub fn code(self) -> (r: &'static str)
        ensures
            r@ == lang_code(self),
    {
        match self {
            Lang::English => {
                proof {
                    reveal_strlit("en");
                }
                "en"
            },
            Lang::Dutch => {
                proof {
                    reveal_strlit("nl");
                }
                "nl"
            },
        }
    }

    /// The language's own name, for the selector (shown the same in every UI
    /// language, as is conventional).
    pub fn native_name(self) -> (r: &'static str)
        ensures
            r@ == lang_native_name(self),
    {
        match self {
            Lang::English => {
                proof {
                    reveal_strlit("English");
                }
                "English"
            },
            Lang::Dutch => {
                proof {
                    reveal_strlit("Nederlands");
                }
                "Nederlands"
            },
        }
    }

    /// Map a locale tag (e.g. `"nl-NL"`, `"en_US"`) to a supported language by
    /// its primary subtag, or `None` if unsupported.
    pub fn from_locale_tag(tag: &str) -> (r: Option<Lang>)
        ensures
            r == lang_for_code(primary_subtag(tag@)),
    {
        let t = chars_of(tag);
        let mut seps: Vec<char> = Vec::new();
        seps.push('-');
        seps.push('_');
        proof {
            assert(seps@ =~= seq!['-', '_']);
        }
        let head = before_any_exec(t.as_slice(), seps.as_slice());
        let primary = lower_vec(head.as_slice());
        let en = chars_of(Lang::English.code());
        if chars_eq(primary.as_slice(), en.as_slice()) {
            return Some(Lang::English);
        }
        let nl = chars_of(Lang::Dutch.code());
        if chars_eq(primary.as_slice(), nl.as_slice()) {
            return Some(Lang::Dutch);
        }
        None
    }
}

/// A language's own code always resolves back to that language.
pub proof fn lemma_code_round_trip(l: Lang)
    ensures
        lang_for_code(primary_subtag(lang_code(l))) == Some(l),
{
    let c = lang_code(l);
    assert(before_any(c, seq!['-', '_']) =~= c) by {
        assert(!seq!['-', '_'].contains(c[0]));
        assert(!seq!['-', '_'].contains(c[1]));
        assert(c.drop_first().drop_first() =~= Seq::<char>::empty());
        assert(before_any(c.drop_first().drop_first(), seq!['-', '_']) =~= Seq::<char>::empty());
        assert(c.drop_first()[0] == c[1]);
        assert(before_any(c.drop_first(), seq!['-', '_']) =~= seq![c[1]]);
    }
    assert(lower_all(c) =~= c);
}

/// The active UI language: the user's explicit `choice`, else the language
/// of the system `locale` tag when it is supported, else English.
pub fn active_language(choice: Option<Lang>, locale: Option<&str>) -> (r: Lang)
    ensures
        r == match choice {
            Some(l) => l,
            None => match locale {
                Some(t) => match lang_for_code(primary_subtag(t@)) {
                    Some(l) => l,
                    None => Lang::English,
                },
                None => Lang::English,
            },
        },
{
    match choice {
        Some(l) => l,
        None => match locale {
            Some(t) => match Lang::from_locale_tag(t) {
                Some(l) => l,
                None => Lang::English,
            },
            None => Lang::English,
        },
    }
}

} // verus!

