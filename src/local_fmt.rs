use vstd::prelude::*;

use crate::enum_map::{EnumableMap, Enumable};

verus! {

/// How the current language is chosen: a fixed language, or a function
/// called each time.
pub enum Selector<L, F> {
    Fixed(L),
    Dynamic(F),
}

/// Messages in every language, and the choice of the current one.
#[verifier::reject_recursive_types(L)]
pub struct LocalFmt<L: Enumable, M, F: Fn() -> L> {
    messages: EnumableMap<L, M>,
    lang: Selector<L, F>,
}

impl<L: Enumable, M, F: Fn() -> L> LocalFmt<L, M, F> {
    pub closed spec fn spec_messages(&self) -> EnumableMap<L, M> {
        self.messages
    }

    pub closed spec fn spec_selector(&self) -> Selector<L, F> {
        self.lang
    }

    /// The selector can be asked: a dynamic one can always be called.
    pub open spec fn selector_ok(s: Selector<L, F>) -> bool {
        match s {
            Selector::Fixed(_) => true,
            Selector::Dynamic(f) => f.requires(()),
        }
    }

    /// `l` is a language the selector may give.
    pub open spec fn selects(s: Selector<L, F>, l: L) -> bool {
        match s {
            Selector::Fixed(x) => l == x,
            Selector::Dynamic(f) => f.ensures((), l),
        }
    }

    pub fn new(messages: EnumableMap<L, M>, lang: Selector<L, F>) -> (r: Self)
        ensures
            r.spec_messages() == messages,
            r.spec_selector() == lang,
    {
        LocalFmt { messages, lang }
    }

    /// The current language: the fixed one, or what the function gives now.
    pub fn lang(&self) -> (r: L)
        requires
            Self::selector_ok(self.spec_selector()),
        ensures
            Self::selects(self.spec_selector(), r),
    {
        match &self.lang {
            Selector::Fixed(l) => *l,
            Selector::Dynamic(f) => f(),
        }
    }

    /// The messages of the current language.
    pub fn get_message(&self) -> (r: &M)
        requires
            self.spec_messages().wf(),
            Self::selector_ok(self.spec_selector()),
        ensures
            exists|l: L|
                Self::selects(self.spec_selector(), l) && *r
                    == self.spec_messages().spec_values()[l.spec_index() as int],
    {
        let l = self.lang();
        self.messages.get(l)
    }

    /// The messages of the language `l`.
    pub fn get(&self, l: L) -> (r: &M)
        requires
            self.spec_messages().wf(),
        ensures
            *r == self.spec_messages().spec_values()[l.spec_index() as int],
    {
        self.messages.get(l)
    }

    /// Replaces the way the current language is chosen; the messages stay.
    pub fn set_selector(&mut self, lang: Selector<L, F>)
        ensures
            final(self).spec_messages() == old(self).spec_messages(),
            final(self).spec_selector() == lang,
    {
        self.lang = lang;
    }
}

} // verus!
