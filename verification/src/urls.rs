//! Where media comes from.

use url::Url;

use vstd::prelude::*;
use vstd::string::StringExecFns;

use crate::text::{chars_of, concat2, concat3, same_text, string_of, texts};

verus! {

/// The parts of a URL that matter here.
#[derive(Debug)]
pub struct ParsedUrl {
    pub scheme: String,
    /// The whole URL in its normal form.
    pub text: String,
    /// What lies between the slashes of its path, where the path starts with one.
    pub segments: Option<Vec<String>>,
}

pub struct UrlView {
    pub scheme: Seq<char>,
    pub text: Seq<char>,
    pub segments: Option<Seq<Seq<char>>>,
}

impl View for ParsedUrl {
    type V = UrlView;

    open spec fn view(&self) -> UrlView {
        UrlView {
            scheme: self.scheme@,
            text: self.text@,
            segments: match self.segments {
                Some(segments) => Some(texts(segments@)),
                None => None,
            },
        }
    }
}

/// A text read as a URL, or what is wrong with it.
pub uninterp spec fn parsed_url(input: Seq<char>) -> Result<UrlView, Seq<char>>;

/// `Url::parse`: reads an absolute URL.  What it makes of a text is left as a
/// name; the parts come from `Url::scheme`, `Url::as_str` and
/// `Url::path_segments`, and the reason for a refusal is the text of the error.
#[verifier::external_body]
pub(crate) fn parse_url(input: &str) -> (url: Result<ParsedUrl, String>)
    ensures
        match url {
            Ok(url) => parsed_url(input@) == Ok::<UrlView, Seq<char>>(url@),
            Err(reason) => parsed_url(input@) == Err::<UrlView, Seq<char>>(reason@),
        },
{
    let url = Url::parse(input).map_err(|error| error.to_string())?;
    Ok(ParsedUrl {
        scheme: url.scheme().to_string(),
        text: url.as_str().to_string(),
        segments: url.path_segments().map(|list| list.map(str::to_string).collect()),
    })
}

pub open spec fn is_web_scheme(scheme: Seq<char>) -> bool {
    scheme == "http"@ || scheme == "https"@
}

impl ParsedUrl {
    /// Whether the URL can be fetched.
    pub fn is_web(&self) -> (yes: bool)
        ensures
            yes == is_web_scheme(self@.scheme),
    {
        same_text(self.scheme.as_str(), "http") || same_text(self.scheme.as_str(), "https")
    }
}

// ---------------------------------------------------------------------------
// Recordings
// ---------------------------------------------------------------------------

/// Where a recording lies.
#[derive(Debug)]
pub enum MediaSource {
    /// On the web.
    Remote(ParsedUrl),
    /// On this machine, under the path that was given.
    Local,
}

/// A text that is a URL which can be fetched lies on the web; all else is a path.
pub open spec fn is_source(parsed: Result<UrlView, Seq<char>>, source: MediaSource) -> bool {
    match parsed {
        Ok(url) => if is_web_scheme(url.scheme) {
            source matches MediaSource::Remote(found) && found@ == url
        } else {
            source is Local
        },
        Err(_) => source is Local,
    }
}

/// Where a recording lies, given how its name reads as a URL.
pub fn source_of(parsed: Result<ParsedUrl, String>) -> (source: MediaSource)
    ensures
        match parsed {
            Ok(url) => is_source(Ok(url@), source),
            Err(reason) => is_source(Err(reason@), source),
        },
{
    match parsed {
        Ok(url) => if url.is_web() {
            MediaSource::Remote(url)
        } else {
            MediaSource::Local
        },
        Err(_) => MediaSource::Local,
    }
}

/// Where a recording lies.
pub fn media_source(input: &str) -> (source: MediaSource)
    ensures
        is_source(parsed_url(input@), source),
{
    source_of(parse_url(input))
}

/// The position of the last dot, or -1.
pub open spec fn last_dot(name: Seq<char>) -> int
    decreases name.len(),
{
    if name.len() == 0 {
        -1
    } else if name.last() == '.' {
        name.len() - 1
    } else {
        last_dot(name.drop_last())
    }
}

/// The extension of a file name: what follows its last dot.  A name that has no
/// dot but its first character has none, and `..` is no file name.
pub open spec fn name_extension(name: Seq<char>) -> Option<Seq<char>> {
    if last_dot(name) <= 0 || name == seq!['.', '.'] {
        None
    } else {
        Some(name.skip(last_dot(name) + 1))
    }
}

pub fn extension_of_name(name: &str) -> (extension: Option<String>)
    ensures
        match extension {
            Some(extension) => name_extension(name@) == Some(extension@),
            None => name_extension(name@) is None,
        },
{
    let chars = chars_of(name);
    if chars.len() == 2 && chars[0] == '.' && chars[1] == '.' {
        assert(name@ =~= seq!['.', '.']);
        return None;
    }
    assert(name@ != seq!['.', '.']) by {
        if name@ == seq!['.', '.'] {
            assert(chars@[0] == '.' && chars@[1] == '.');
        }
    }
    let mut end = chars.len();
    assert(name@.take(name@.len() as int) =~= name@);
    while end > 0
        invariant
            chars@ == name@,
            end <= chars@.len(),
            name@ != seq!['.', '.'],
            last_dot(name@.take(end as int)) == last_dot(name@),
        decreases end,
    {
        assert(name@.take(end as int).drop_last() =~= name@.take(end - 1));
        if chars[end - 1] == '.' {
            if end == 1 {
                return None;
            }
            assert(chars@.subrange(end as int, chars@.len() as int) =~= name@.skip(end as int));
            return Some(string_of(chars.as_slice(), end, chars.len()));
        }
        end = end - 1;
    }
    None
}

/// The ending of the file that a download is kept in: the extension of the last
/// part of the path, or one that stands for any audio.
pub open spec fn download_ending(segments: Option<Seq<Seq<char>>>) -> Seq<char> {
    match segments {
        Some(list) => if list.len() > 0 && name_extension(list.last()) is Some {
            "."@ + name_extension(list.last())->0
        } else {
            ".audio"@
        },
        None => ".audio"@,
    }
}

pub fn download_suffix(url: &ParsedUrl) -> (suffix: String)
    ensures
        suffix@ == download_ending(url@.segments),
{
    match &url.segments {
        Some(list) => {
            if list.len() > 0 {
                let last = list[list.len() - 1].as_str();
                assert(last@ == texts(list@).last());
                match extension_of_name(last) {
                    Some(extension) => {
                        return concat2(".", extension.as_str());
                    },
                    None => {},
                }
            }
            ".audio".to_string()
        },
        None => ".audio".to_string(),
    }
}

// ---------------------------------------------------------------------------
// Live streams
// ---------------------------------------------------------------------------

#[derive(Debug)]
pub enum LiveUrlError {
    NotAUrl { input: String, reason: String },
    NotWeb,
}

impl LiveUrlError {
    pub open spec fn text(self) -> Seq<char> {
        match self {
            LiveUrlError::NotAUrl { input, reason } => "failed to parse live URL `"@ + input@
                + "`"@ + ": "@ + reason@,
            LiveUrlError::NotWeb => "`--live` currently supports only http/https URLs"@,
        }
    }

    pub fn message(&self) -> (text: String)
        ensures
            text@ == self.text(),
    {
        match self {
            LiveUrlError::NotAUrl { input, reason } => {
                let mut text = concat3("failed to parse live URL `", input.as_str(), "`");
                text.append(": ");
                text.append(reason.as_str());
                text
            },
            LiveUrlError::NotWeb => {
                "`--live` currently supports only http/https URLs".to_string()
            },
        }
    }
}

/// The URL of a live stream must read as one and be on the web.
pub open spec fn is_live_url(
    input: Seq<char>,
    parsed: Result<UrlView, Seq<char>>,
    outcome: Result<ParsedUrl, LiveUrlError>,
) -> bool {
    match parsed {
        Err(reason) => outcome matches Err(LiveUrlError::NotAUrl { input: named, reason: why })
            && named@ == input && why@ == reason,
        Ok(url) => if is_web_scheme(url.scheme) {
            outcome matches Ok(found) && found@ == url
        } else {
            outcome matches Err(LiveUrlError::NotWeb)
        },
    }
}

/// The URL of a live stream, given how the input reads as one.
pub fn live_url_of(input: &str, parsed: Result<ParsedUrl, String>) -> (outcome: Result<
    ParsedUrl,
    LiveUrlError,
>)
    ensures
        match parsed {
            Ok(url) => is_live_url(input@, Ok(url@), outcome),
            Err(reason) => is_live_url(input@, Err(reason@), outcome),
        },
{
    match parsed {
        Err(reason) => Err(LiveUrlError::NotAUrl { input: input.to_string(), reason }),
        Ok(url) => if url.is_web() {
            Ok(url)
        } else {
            Err(LiveUrlError::NotWeb)
        },
    }
}

/// The URL of a live stream.
pub fn live_url(input: &str) -> (outcome: Result<ParsedUrl, LiveUrlError>)
    ensures
        is_live_url(input@, parsed_url(input@), outcome),
{
    live_url_of(input, parse_url(input))
}

/// The extension of a name is what follows its last dot, where something stands
/// before that dot; a name without a dot, or with one at its start alone, has
/// none.
pub proof fn law_extensions_follow_the_last_dot(stem: Seq<char>, extension: Seq<char>)
    requires
        !extension.contains('.'),
    ensures
        stem.len() > 0 && !(stem == seq!['.'] && extension.len() == 0) ==> name_extension(
            stem.push('.') + extension,
        ) == Some(extension),
        stem.len() == 0 ==> name_extension(stem.push('.') + extension) is None,
        name_extension(extension) is None,
{
    let name = stem.push('.') + extension;
    lemma_last_dot(stem, extension);
    lemma_no_dot(extension);
    if stem.len() > 0 && !(stem == seq!['.'] && extension.len() == 0) {
        if name == seq!['.', '.'] {
            assert(name.len() == 2);
            if extension.len() == 0 {
                assert(stem[0] == name[0]);
                assert(stem =~= seq!['.']);
            }
            assert(false);
        }
        assert(name.skip(stem.len() as int + 1) =~= extension);
    }
}

proof fn lemma_no_dot(name: Seq<char>)
    requires
        !name.contains('.'),
    ensures
        last_dot(name) == -1,
    decreases name.len(),
{
    if name.len() > 0 {
        let before = name.drop_last();
        assert(name[name.len() - 1] != '.') by {
            if name[name.len() - 1] == '.' {
                assert(name.contains('.'));
            }
        }
        assert(!before.contains('.')) by {
            if before.contains('.') {
                let i = choose|i: int| 0 <= i < before.len() && before[i] == '.';
                assert(name[i] == '.');
            }
        }
        lemma_no_dot(before);
    }
}

proof fn lemma_last_dot(stem: Seq<char>, extension: Seq<char>)
    requires
        !extension.contains('.'),
    ensures
        last_dot(stem.push('.') + extension) == stem.len(),
    decreases extension.len(),
{
    let name = stem.push('.') + extension;
    if extension.len() == 0 {
        assert(name.last() == '.');
    } else {
        let before = extension.drop_last();
        assert(extension[extension.len() - 1] != '.') by {
            if extension[extension.len() - 1] == '.' {
                assert(extension.contains('.'));
            }
        }
        assert(!before.contains('.')) by {
            if before.contains('.') {
                let i = choose|i: int| 0 <= i < before.len() && before[i] == '.';
                assert(extension[i] == '.');
            }
        }
        lemma_last_dot(stem, before);
        assert(name.drop_last() =~= stem.push('.') + before);
    }
}

/// A download keeps the extension of the last part of its path, behind a dot, and
/// ends in `.audio` where there is none.
pub proof fn law_downloads_keep_their_extension(segments: Option<Seq<Seq<char>>>)
    ensures
        segments matches Some(list) && list.len() > 0 ==> match name_extension(
            segments->0[segments->0.len() - 1],
        ) {
            Some(extension) => download_ending(segments) == "."@ + extension,
            None => download_ending(segments) == ".audio"@,
        },
        segments is None || segments->0.len() == 0 ==> download_ending(segments) == ".audio"@,
{
}

/// What reads as a URL with the scheme `http` or `https` is fetched; all else is a
/// path on this machine, and no live stream.
pub proof fn law_only_the_web_is_fetched(
    input: Seq<char>,
    parsed: Result<UrlView, Seq<char>>,
    source: MediaSource,
    live: Result<ParsedUrl, LiveUrlError>,
)
    requires
        is_source(parsed, source),
        is_live_url(input, parsed, live),
    ensures
        ({
            let web = parsed is Ok && (parsed->Ok_0.scheme == "http"@ || parsed->Ok_0.scheme
                == "https"@);
            &&& web <==> source is Remote
            &&& web <==> live is Ok
            &&& source matches MediaSource::Remote(url) ==> url@ == parsed->Ok_0
            &&& live matches Ok(url) ==> url@ == parsed->Ok_0
            &&& parsed is Ok && !web ==> live == Err::<ParsedUrl, LiveUrlError>(
                LiveUrlError::NotWeb,
            )
            &&& parsed matches Err(reason) ==> (live matches Err(
                LiveUrlError::NotAUrl { input: named, reason: why },
            ) && named@ == input && why@ == reason)
        }),
{
}

} // verus!
