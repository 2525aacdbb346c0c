//! What the library takes from the `url` and `toml` crates, with the contracts that it relies on.
use vstd::prelude::*;

use url::ParseError as P;
use UrlErrorKind as K;

verus! {

/// The error type of `url::Url::parse`.
#[verifier::external_type_specification]
#[verifier::external_body]
pub struct ExUrlParseError(url::ParseError);

/// A parsed URL of the `url` crate.
#[verifier::external_type_specification]
#[verifier::external_body]
pub struct ExUrl(url::Url);

/// Why `url::Url::parse` refused a text: the variants of `url::ParseError`, and `Other` for
/// a variant that a later version of the crate adds (the outside enum is non-exhaustive).
#[derive(Debug, Clone, Copy, PartialEq, Eq, Structural)]
pub enum UrlErrorKind {
    EmptyHost,
    IdnaError,
    InvalidPort,
    InvalidIpv4Address,
    InvalidIpv6Address,
    InvalidDomainCharacter,
    RelativeUrlWithoutBase,
    RelativeUrlWithCannotBeABaseBase,
    SetHostOnCannotBeABaseUrl,
    Overflow,
    Other,
}

/// A refusal of the URL parser: which of its variants it is, and the parser's own error.
#[derive(Debug, PartialEq, Eq)]
pub struct UrlError {
    pub kind: UrlErrorKind,
    pub source: url::ParseError,
}

/// What `url::Url::parse` answers on a text: none when it accepts the text, else why it
/// refuses it. A function of the text alone.
pub uninterp spec fn url_parse_outcome(input: Seq<char>) -> Option<UrlErrorKind>;

/// `url::Url::parse`. Claimed: it succeeds exactly when `url_parse_outcome` of the text is
/// none, and when it fails, the variant of its error is the one `url_parse_outcome` names.
/// Nothing is claimed of the parsed value beyond what `url_scheme` states.
#[verifier::external_body]
pub(crate) fn url_parse(input: &str) -> (r: Result<url::Url, UrlError>)
    ensures
        r is Ok <==> url_parse_outcome(input@) is None,
        r matches Err(e) ==> url_parse_outcome(input@) == Some(e.kind),
{
    url::Url::parse(input).map_err(|source| UrlError { source, kind: match source {
        P::EmptyHost => K::EmptyHost,
        P::IdnaError => K::IdnaError,
        P::InvalidPort => K::InvalidPort,
        P::InvalidIpv4Address => K::InvalidIpv4Address,
        P::InvalidIpv6Address => K::InvalidIpv6Address,
        P::InvalidDomainCharacter => K::InvalidDomainCharacter,
        P::RelativeUrlWithoutBase => K::RelativeUrlWithoutBase,
        P::RelativeUrlWithCannotBeABaseBase => K::RelativeUrlWithCannotBeABaseBase,
        P::SetHostOnCannotBeABaseUrl => K::SetHostOnCannotBeABaseUrl,
        P::Overflow => K::Overflow,
        _ => K::Other,
    } })
}

/// `url::Url::scheme`. Claimed: the scheme of a parsed URL is not empty, since the parser
/// only accepts a scheme that starts with an ASCII letter (`Parser::parse_scheme`).
#[verifier::external_body]
pub(crate) fn url_scheme(u: &url::Url) -> (r: &str)
    ensures
        r@.len() > 0,
{
    u.scheme()
}

/// A TOML value of the two shapes that the configuration file writes.
pub enum TomlValue {
    Str(String),
    StrArray(Vec<String>),
}

/// The content of a `TomlValue`.
pub enum TomlValueView {
    Str(Seq<char>),
    StrArray(Seq<Seq<char>>),
}

impl View for TomlValue {
    type V = TomlValueView;

    open spec fn view(&self) -> TomlValueView {
        match self {
            TomlValue::Str(s) => TomlValueView::Str(s@),
            TomlValue::StrArray(v) => TomlValueView::StrArray(crate::text::views(v@)),
        }
    }
}

/// The text that `toml::Value`'s `Display` gives for a value: a function of the value alone.
pub uninterp spec fn toml_display(v: TomlValueView) -> Seq<char>;

/// `Display` of `toml::Value` (`to_string`), on a string or an array of strings.
/// Claimed: the text is `toml_display` of the value; nothing more is said of it.
#[verifier::external_body]
pub(crate) fn toml_value_text(v: &TomlValue) -> (r: String)
    ensures
        r@ == toml_display(v@),
{
    let value = match v {
        TomlValue::Str(s) => toml::Value::String(s.clone()),
        TomlValue::StrArray(items) => toml::Value::Array(items.iter().cloned().map(toml::Value::String).collect()),
    };
    value.to_string()
}

} // verus!
