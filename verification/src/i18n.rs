use vstd::prelude::*;

use crate::text::chars_of;

verus! {

/// Supported UI languages.
#[derive(Clone, Copy, Debug, PartialEq, Eq, Structural)]
pub enum Language {
    Fr,
    En,
}

/// The language that the toggle button switches to.
pub open spec fn other_language(lang: Language) -> Language {
    match lang {
        Language::Fr => Language::En,
        Language::En => Language::Fr,
    }
}

/// The BCP-47 tag of a language, as stored in the browser.
pub open spec fn language_tag(lang: Language) -> Seq<char> {
    match lang {
        Language::Fr => "fr"@,
        Language::En => "en"@,
    }
}

/// The short label of a language.
pub open spec fn language_label(lang: Language) -> Seq<char> {
    match lang {
        Language::Fr => "FR"@,
        Language::En => "EN"@,
    }
}

/// The language restored from the stored preference: English only when the stored
/// value is exactly `en`, French otherwise (and when nothing is stored).
pub open spec fn language_from_stored_spec(stored: Option<Seq<char>>) -> Language {
    match stored {
        Some(s) => if s == "en"@ {
            Language::En
        } else {
            Language::Fr
        },
        None => Language::Fr,
    }
}

impl Language {
    /// BCP-47 language tag.
    pub fn as_str(self) -> (tag: &'static str)
        ensures
            tag@ == language_tag(self),
    {
        match self {
            Language::Fr => "fr",
            Language::En => "en",
        }
    }

    /// Short label displayed in the current-language indicator.
    pub fn label(self) -> (label: &'static str)
        ensures
            label@ == language_label(self),
    {
        match self {
            Language::Fr => "FR",
            Language::En => "EN",
        }
    }

    /// Label for the toggle button (shows the *other* language).
    pub fn toggle_label(self) -> (label: &'static str)
        ensures
            label@ == language_label(other_language(self)),
    {
        match self {
            Language::Fr => "EN",
            Language::En => "FR",
        }
    }
}

/// The language after the language button is pressed.
pub fn toggle_language(lang: Language) -> (next: Language)
    ensures
        next == other_language(lang),
{
    match lang {
        Language::Fr => Language::En,
        Language::En => Language::Fr,
    }
}

/// The language to start with, given the value stored under the `lang` key, if any.
pub fn language_from_storage(stored: Option<&str>) -> (lang: Language)
    ensures
        lang == language_from_stored_spec(
            match stored {
                Some(s) => Some(s@),
                None => None,
            },
        ),
{
    proof {
        reveal_strlit("en");
    }
    match stored {
        Some(s) => {
            let v = chars_of(s);
            if v.len() == 2 && v[0] == 'e' && v[1] == 'n' {
                assert(v@ =~= "en"@);
                Language::En
            } else {
                assert(v@.len() != 2 || v@[0] != 'e' || v@[1] != 'n');
                Language::Fr
            }
        },
        None => Language::Fr,
    }
}

/// Static UI strings for one language.
pub struct Translations {
    pub nav_home: &'static str,
    pub nav_about: &'static str,
    pub nav_blog: &'static str,
    pub nav_docs: &'static str,
    pub nav_contact: &'static str,
    pub nav_projects: &'static str,
    pub nav_technologies: &'static str,
    pub hero_greeting: &'static str,
    pub hero_cta_about: &'static str,
    pub about_title: &'static str,
    pub timeline_title: &'static str,
    pub home_footer_contact_cta: &'static str,
    pub loading: &'static str,
    pub error_loading: &'static str,
    pub error_retry: &'static str,
}

/// The UI strings of the given language.
pub fn translations(lang: Language) -> (t: Translations)
    ensures
        lang == Language::Fr ==> {
            &&& t.nav_home@ == "Accueil"@
            &&& t.nav_about@ == "À propos"@
            &&& t.nav_blog@ == "Blog"@
            &&& t.nav_docs@ == "Docs"@
            &&& t.nav_contact@ == "Contact"@
            &&& t.nav_projects@ == "Projets"@
            &&& t.nav_technologies@ == "Carte techno"@
            &&& t.hero_greeting@ == "Bonjour 👋"@
            &&& t.hero_cta_about@ == "More about me"@
            &&& t.about_title@ == "À propos de moi"@
            &&& t.timeline_title@ == "Mon Parcours"@
            &&& t.home_footer_contact_cta@ == "Me contacter"@
            &&& t.loading@ == "Chargement…"@
            &&& t.error_loading@ == "Impossible de charger les données"@
            &&& t.error_retry@ == "Réessayer"@
        },
        lang == Language::En ==> {
            &&& t.nav_home@ == "Home"@
            &&& t.nav_about@ == "About"@
            &&& t.nav_blog@ == "Blog"@
            &&& t.nav_docs@ == "Docs"@
            &&& t.nav_contact@ == "Contact"@
            &&& t.nav_projects@ == "Projects"@
            &&& t.nav_technologies@ == "Tech map"@
            &&& t.hero_greeting@ == "Hello 👋"@
            &&& t.hero_cta_about@ == "More about me"@
            &&& t.about_title@ == "About me"@
            &&& t.timeline_title@ == "My Journey"@
            &&& t.home_footer_contact_cta@ == "Contact me"@
            &&& t.loading@ == "Loading…"@
            &&& t.error_loading@ == "Failed to load data"@
            &&& t.error_retry@ == "Retry"@
        },
{
    match lang {
        Language::Fr => Translations {
            nav_home: "Accueil",
            nav_about: "À propos",
            nav_blog: "Blog",
            nav_docs: "Docs",
            nav_contact: "Contact",
            nav_projects: "Projets",
            nav_technologies: "Carte techno",
            hero_greeting: "Bonjour 👋",
            hero_cta_about: "More about me",
            about_title: "À propos de moi",
            timeline_title: "Mon Parcours",
            home_footer_contact_cta: "Me contacter",
            loading: "Chargement…",
            error_loading: "Impossible de charger les données",
            error_retry: "Réessayer",
        },
        Language::En => Translations {
            nav_home: "Home",
            nav_about: "About",
            nav_blog: "Blog",
            nav_docs: "Docs",
            nav_contact: "Contact",
            nav_projects: "Projects",
            nav_technologies: "Tech map",
            hero_greeting: "Hello 👋",
            hero_cta_about: "More about me",
            about_title: "About me",
            timeline_title: "My Journey",
            home_footer_contact_cta: "Contact me",
            loading: "Loading…",
            error_loading: "Failed to load data",
            error_retry: "Retry",
        },
    }
}

/// Pressing the language button twice gives back the language one started with.
pub proof fn lemma_toggle_twice(lang: Language)
    ensures
        other_language(other_language(lang)) == lang,
{
}

/// The toggle button always shows the label of the language it switches to, which is
/// never the current one.
pub proof fn lemma_toggle_label_names_next(lang: Language)
    ensures
        language_label(other_language(lang)) != language_label(lang),
        other_language(lang) != lang,
{
    reveal_strlit("FR");
    reveal_strlit("EN");
    assert(language_label(Language::Fr)[0] != language_label(Language::En)[1] || "FR"@[1] != "EN"@[1]);
}

/// A language that was saved under the `lang` key is the one restored on the next
/// page load.
pub proof fn lemma_stored_language_round_trip(lang: Language)
    ensures
        language_from_stored_spec(Some(language_tag(lang))) == lang,
{
    reveal_strlit("fr");
    reveal_strlit("en");
    if lang == Language::Fr {
        assert("fr"@[0] != "en"@[0]);
    }
}

} // verus!
