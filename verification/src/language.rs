//! Languages and the models that they select.

use vstd::prelude::*;

use crate::model::ModelChoice;
use crate::text::{
    ascii_lower, ascii_lowered, concat3, is_space, opt_str, same_text, to_ascii_lower, trimmed,
    trimmed_end, trimmed_start,
};

verus! {

/// What a user says of the language: nothing, where it is blank; else the text in
/// lowercase and without white space around it.
pub open spec fn named_language(language: Option<Seq<char>>) -> Option<Seq<char>> {
    match language {
        Some(language) => if trimmed(language).len() == 0 {
            None
        } else {
            Some(ascii_lowered(trimmed(language)))
        },
        None => None,
    }
}

pub open spec fn means_russian(name: Seq<char>) -> bool {
    name == "ru"@
}

pub open spec fn means_english(name: Seq<char>) -> bool {
    name == "en"@
}

fn read_language(language: Option<&str>) -> (name: Option<String>)
    ensures
        match name {
            Some(name) => named_language(opt_str(language)) == Some(name@),
            None => named_language(opt_str(language)) is None,
        },
{
    match language {
        Some(language) => {
            let text = language.trim();
            if text.is_empty() {
                None
            } else {
                Some(to_ascii_lower(text))
            }
        },
        None => None,
    }
}

fn is_russian(name: &str) -> (yes: bool)
    ensures
        yes == means_russian(name@),
{
    same_text(name, "ru")
}

fn is_english(name: &str) -> (yes: bool)
    ensures
        yes == means_english(name@),
{
    same_text(name, "en")
}

// ---------------------------------------------------------------------------
// The language of a request
// ---------------------------------------------------------------------------

#[derive(Debug)]
pub struct UnsupportedLanguage {
    pub language: String,
}

impl UnsupportedLanguage {
    pub open spec fn text(self) -> Seq<char> {
        "unsupported language `"@ + self.language@
            + "`; currently supported values are `ru` and `en`"@
    }

    pub fn message(&self) -> (text: String)
        ensures
            text@ == self.text(),
    {
        concat3(
            "unsupported language `",
            self.language.as_str(),
            "`; currently supported values are `ru` and `en`",
        )
    }
}

/// The language of a request: Russian where none is named; any name but `ru` and
/// `en` is given back as the error.
pub open spec fn resolved_language(language: Option<Seq<char>>) -> Result<Seq<char>, Seq<char>> {
    match named_language(language) {
        None => Ok("ru"@),
        Some(name) => if means_russian(name) {
            Ok("ru"@)
        } else if means_english(name) {
            Ok("en"@)
        } else {
            Err(name)
        },
    }
}

pub fn resolve_requested_language(language: Option<&str>) -> (resolved: Result<
    String,
    UnsupportedLanguage,
>)
    ensures
        match resolved {
            Ok(name) => resolved_language(opt_str(language)) == Ok::<Seq<char>, Seq<char>>(name@),
            Err(error) => resolved_language(opt_str(language)) == Err::<Seq<char>, Seq<char>>(
                error.language@,
            ),
        },
{
    match read_language(language) {
        None => Ok("ru".to_string()),
        Some(name) => if is_russian(name.as_str()) {
            Ok("ru".to_string())
        } else if is_english(name.as_str()) {
            Ok("en".to_string())
        } else {
            Err(UnsupportedLanguage { language: name })
        },
    }
}

/// English has a model of its own; all else goes to the Russian one.
pub open spec fn model_for(language: Seq<char>) -> ModelChoice {
    if language == "en"@ {
        ModelChoice::ParakeetTdt06bV2
    } else {
        ModelChoice::GigaamV3
    }
}

pub fn select_model_for_language(language: &str) -> (choice: ModelChoice)
    ensures
        choice == model_for(language@),
{
    if same_text(language, "en") {
        ModelChoice::ParakeetTdt06bV2
    } else {
        ModelChoice::GigaamV3
    }
}

// ---------------------------------------------------------------------------
// The languages of a model
// ---------------------------------------------------------------------------

#[derive(Clone, Copy, Debug, PartialEq, Eq, Structural)]
pub enum LanguageError {
    RussianOnly,
    EnglishNotNamed,
    EnglishOnly,
}

impl LanguageError {
    pub open spec fn text(self) -> Seq<char> {
        match self {
            LanguageError::RussianOnly =>
                "GigaAM v3 community ONNX backend is currently Russian-only; use `--language ru`"@,
            LanguageError::EnglishNotNamed =>
                "Parakeet English backend requires `--language en`"@,
            LanguageError::EnglishOnly =>
                "Parakeet TDT backend is enabled only with `--language en`"@,
        }
    }

    pub fn message(self) -> (text: &'static str)
        ensures
            text@ == self.text(),
    {
        match self {
            LanguageError::RussianOnly => {
                "GigaAM v3 community ONNX backend is currently Russian-only; use `--language ru`"
            },
            LanguageError::EnglishNotNamed => "Parakeet English backend requires `--language en`",
            LanguageError::EnglishOnly => {
                "Parakeet TDT backend is enabled only with `--language en`"
            },
        }
    }
}

/// Why a model does not take a language, if so.
pub open spec fn language_fault(choice: ModelChoice, language: Option<Seq<char>>) -> Option<
    LanguageError,
> {
    match (choice, named_language(language)) {
        (ModelChoice::GigaamV3, None) => None,
        (ModelChoice::GigaamV3, Some(name)) => if means_russian(name) {
            None
        } else {
            Some(LanguageError::RussianOnly)
        },
        (ModelChoice::ParakeetTdt06bV2, None) => Some(LanguageError::EnglishNotNamed),
        (ModelChoice::ParakeetTdt06bV2, Some(name)) => if means_english(name) {
            None
        } else {
            Some(LanguageError::EnglishOnly)
        },
    }
}

pub fn validate_gigaam_language(language: Option<&str>) -> (outcome: Result<(), LanguageError>)
    ensures
        match outcome {
            Ok(()) => language_fault(ModelChoice::GigaamV3, opt_str(language)) is None,
            Err(error) => language_fault(ModelChoice::GigaamV3, opt_str(language)) == Some(error),
        },
{
    match read_language(language) {
        None => Ok(()),
        Some(name) => if is_russian(name.as_str()) {
            Ok(())
        } else {
            Err(LanguageError::RussianOnly)
        },
    }
}

pub fn validate_parakeet_language(language: Option<&str>) -> (outcome: Result<(), LanguageError>)
    ensures
        match outcome {
            Ok(()) => language_fault(ModelChoice::ParakeetTdt06bV2, opt_str(language)) is None,
            Err(error) => language_fault(ModelChoice::ParakeetTdt06bV2, opt_str(language)) == Some(
                error,
            ),
        },
{
    match read_language(language) {
        None => Err(LanguageError::EnglishNotNamed),
        Some(name) => if is_english(name.as_str()) {
            Ok(())
        } else {
            Err(LanguageError::EnglishOnly)
        },
    }
}

proof fn lemma_plain_name(name: Seq<char>)
    requires
        name.len() == 2,
        forall|i: int| 0 <= i < 2 ==> 'a' <= #[trigger] name[i] <= 'z',
    ensures
        named_language(Some(name)) == Some(name),
{
    assert(!is_space(name[0]) && !is_space(name[1]));
    assert(trimmed_start(name) == name);
    assert(trimmed_end(name) == name);
    assert(ascii_lower(name[0]) == name[0]);
    assert(ascii_lowered(name) =~= name);
}

/// A language that is accepted selects a model that takes it, and it stays as it
/// is when it is resolved again.
pub proof fn law_resolved_language_suits_its_model(language: Option<Seq<char>>)
    requires
        resolved_language(language) is Ok,
    ensures
        ({
            let resolved = resolved_language(language)->Ok_0;
            &&& language_fault(model_for(resolved), Some(resolved)) is None
            &&& resolved_language(Some(resolved)) == Ok::<Seq<char>, Seq<char>>(resolved)
        }),
{
    reveal_strlit("ru");
    reveal_strlit("en");
    assert("ru"@[0] == 'r' && "en"@[0] == 'e');
    lemma_plain_name("ru"@);
    lemma_plain_name("en"@);
    assert("ru"@ != "en"@);
}

/// Two languages are spoken.  Nothing, and white space alone, means Russian; else
/// the name counts without white space around it and whatever its case, and any
/// other name is refused as it then reads.
pub proof fn law_two_languages_are_spoken(language: Option<Seq<char>>)
    ensures
        language is None ==> resolved_language(language) == Ok::<Seq<char>, Seq<char>>("ru"@),
        language matches Some(text) ==> {
            let read = ascii_lowered(trimmed(text));
            &&& read.len() == 0 || read == "ru"@ ==> resolved_language(language) == Ok::<
                Seq<char>,
                Seq<char>,
            >("ru"@)
            &&& read == "en"@ ==> resolved_language(language) == Ok::<Seq<char>, Seq<char>>("en"@)
            &&& read.len() > 0 && read != "ru"@ && read != "en"@ ==> resolved_language(language)
                == Err::<Seq<char>, Seq<char>>(read)
        },
{
    reveal_strlit("ru");
    reveal_strlit("en");
    assert("ru"@[0] == 'r' && "en"@[0] == 'e');
}

/// The Russian model takes Russian, named or not, and refuses all else; the
/// English one takes English where it is named, and tells a language that is not
/// named from one that is not English.
pub proof fn law_models_take_their_language(language: Option<Seq<char>>)
    ensures
        ({
            let read = match language {
                Some(text) => ascii_lowered(trimmed(text)),
                None => Seq::<char>::empty(),
            };
            let russian = language_fault(ModelChoice::GigaamV3, language);
            let english = language_fault(ModelChoice::ParakeetTdt06bV2, language);
            &&& read.len() == 0 || read == "ru"@ ==> russian is None
            &&& read.len() > 0 && read != "ru"@ ==> russian == Some(LanguageError::RussianOnly)
            &&& read.len() == 0 ==> english == Some(LanguageError::EnglishNotNamed)
            &&& read == "en"@ ==> english is None
            &&& read.len() > 0 && read != "en"@ ==> english == Some(LanguageError::EnglishOnly)
        }),
{
    reveal_strlit("ru");
    reveal_strlit("en");
}

} // verus!
