use vstd::prelude::*;

verus! {

/// The error with which `url::Url::parse` refuses a text.
#[verifier::external_type_specification]
#[verifier::external_body]
pub struct ExParseError(url::ParseError);

/// The text of the URL that `url::Url::parse` reads out of `text`, in the
/// form in which the URL writes itself; nothing where it refuses `text`.
pub uninterp spec fn url_text(text: Seq<char>) -> Option<Seq<char>>;

/// A link as it stands in a marked-up text: the words that are linked, and
/// where to.
#[derive(Debug, Clone, PartialEq, Eq)]
pub struct Link {
    pub title: String,
    pub link: String,
}

/// A link whose target was read as a URL and is held as the URL writes
/// itself.
#[derive(Debug, Clone, PartialEq, Eq)]
pub struct UrlLink {
    pub title: String,
    pub link: String,
}

/// Why a link is no link to follow.
#[derive(Clone, Copy, Debug, PartialEq, Eq, Structural)]
pub enum MarkdownErrorKind {
    /// The target is no URL.
    LinkParsingError,
}

/// Reads a text as a URL with `url::Url::parse` and hands back the URL as a
/// string, as `String::from` makes it of a `Url`. The result depends on the
/// text alone: it is the value that `url_text` names.
#[verifier::external_body]
fn parse_url(text: &str) -> (r: Result<String, url::ParseError>)
    ensures
        match url_text(text@) {
            Some(t) => r is Ok && r->Ok_0@ == t,
            None => r is Err,
        },
{
    url::Url::parse(text).map(String::from)
}

/// The link with title `title` whose target was read with the outcome
/// `parsed`.
pub fn urllink_from(title: String, parsed: Result<String, url::ParseError>) -> (r: Result<
    UrlLink,
    MarkdownErrorKind,
>)
    ensures
        parsed is Ok ==> r is Ok && r->Ok_0.title == title && r->Ok_0.link == parsed->Ok_0,
        parsed is Err ==> r == Err::<UrlLink, MarkdownErrorKind>(
            MarkdownErrorKind::LinkParsingError,
        ),
{
    match parsed {
        Ok(link) => Ok(UrlLink { title, link }),
        Err(_) => Err(MarkdownErrorKind::LinkParsingError),
    }
}

impl Link {
    /// The same link with its target read as a URL; an error where the
    /// target is none.
    pub fn into_urllink(self) -> (r: Result<UrlLink, MarkdownErrorKind>)
        ensures
            match url_text(self.link@) {
                Some(t) => r is Ok && r->Ok_0.title == self.title && r->Ok_0.link@ == t,
                None => r == Err::<UrlLink, MarkdownErrorKind>(
                    MarkdownErrorKind::LinkParsingError,
                ),
            },
    {
        let parsed = parse_url(self.link.as_str());
        urllink_from(self.title, parsed)
    }
}

} // verus!
