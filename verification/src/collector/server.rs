//! The collector service's reading of a source's stream: which source a
//! stream belongs to, taken from its `source-context-id` metadata, and what
//! the service does on each step of the stream.
use vstd::prelude::*;

verus! {

/// The value of a hexadecimal digit, in either case.
pub open spec fn hex_digit_value(c: char) -> Option<nat> {
    if '0' <= c && c <= '9' {
        Some((c as nat - '0' as nat) as nat)
    } else if 'a' <= c && c <= 'f' {
        Some((c as nat - 'a' as nat + 10) as nat)
    } else if 'A' <= c && c <= 'F' {
        Some((c as nat - 'A' as nat + 10) as nat)
    } else {
        None
    }
}

/// The number that the hexadecimal digits `ds` spell, most significant
/// first, or `None` where one of them is not a hexadecimal digit.
pub open spec fn hex_number(ds: Seq<char>) -> Option<nat>
    decreases ds.len(),
{
    if ds.len() == 0 {
        Some(0)
    } else {
        match (hex_number(ds.drop_last()), hex_digit_value(ds.last())) {
            (Some(high), Some(low)) => Some(high * 16 + low),
            _ => None,
        }
    }
}

/// The 32 digits of a hyphenated UUID text (groups of 8, 4, 4, 4 and 12
/// separated by hyphens), or `None` where the hyphens are missing.
pub open spec fn hyphenated_digits(h: Seq<char>) -> Option<Seq<char>> {
    if h.len() == 36 && h[8] == '-' && h[13] == '-' && h[18] == '-' && h[23] == '-' {
        Some(
            h.subrange(0, 8) + h.subrange(9, 13) + h.subrange(14, 18) + h.subrange(19, 23)
                + h.subrange(24, 36),
        )
    } else {
        None
    }
}

/// The lowercase form of an ASCII letter; any other character is kept.
pub open spec fn ascii_lowercase(c: char) -> char {
    if 'A' <= c && c <= 'Z' {
        ((c as nat) + 32) as char
    } else {
        c
    }
}

/// The 32 digits of a UUID text in one of the forms that the `uuid` crate
/// reads: simple (32 digits), hyphenated, hyphenated in braces, or
/// hyphenated after a `urn:uuid:` prefix in any case.
pub open spec fn uuid_digits(s: Seq<char>) -> Option<Seq<char>> {
    if s.len() == 32 {
        Some(s)
    } else if s.len() == 36 {
        hyphenated_digits(s)
    } else if s.len() == 38 && s[0] == '{' && s[37] == '}' {
        hyphenated_digits(s.subrange(1, 37))
    } else if s.len() == 45 && s.subrange(0, 9).map_values(|c: char| ascii_lowercase(c))
        == "urn:uuid:"@ {
        hyphenated_digits(s.subrange(9, 45))
    } else {
        None
    }
}

/// The UUID that a text spells, as a `u128` whose hexadecimal digits are
/// those of the text in order, or `None` where the text is not a UUID.
pub open spec fn uuid_parse(s: Seq<char>) -> Option<u128> {
    match uuid_digits(s) {
        Some(ds) => match hex_number(ds) {
            Some(v) => Some(v as u128),
            None => None,
        },
        None => None,
    }
}

/// Parses a UUID from `s`.
///
/// Trusted: `uuid::Uuid::parse_str` followed by `Uuid::as_u128`. The crate
/// reads exactly the forms of [`uuid_digits`] (checking lengths in bytes,
/// which equal the character counts wherever every character is one the
/// forms allow), decodes each of the 32 digits in either case, and fails on
/// anything else; `as_u128` reads the 16 bytes big-endian, so the value's
/// hexadecimal digits are the text's.
#[verifier::external_body]
fn parse_uuid(s: &str) -> (r: Option<u128>)
    ensures
        r == uuid_parse(s@),
{
    match uuid::Uuid::parse_str(s) {
        Ok(id) => Some(id.as_u128()),
        Err(_) => None,
    }
}

/// Why a stream's `source-context-id` metadata was refused.
#[derive(Debug, Clone, Copy, PartialEq, Eq, Structural)]
pub enum MetadataError {
    /// The stream carries no `source-context-id` metadata.
    Missing,
    /// The metadata is not text, or its text is not a UUID.
    NotUuid,
}

impl MetadataError {
    /// The message with which the stream is refused.
    pub fn message(&self) -> (m: &'static str)
        ensures
            m@ == match self {
                MetadataError::Missing => "missing `source-context-id` metadata"@,
                MetadataError::NotUuid => "`source-context-id` metadata is not a valid UUID"@,
            },
    {
        match self {
            MetadataError::Missing => "missing `source-context-id` metadata",
            MetadataError::NotUuid => "`source-context-id` metadata is not a valid UUID",
        }
    }
}

/// The source context id of a stream, from its `source-context-id` metadata:
/// `None` where the stream carries none, `Some(None)` where the value is not
/// text, and `Some(Some(text))` otherwise.
///
/// A missing value is refused with [`MetadataError::Missing`]; a value that
/// is not text, or whose text is not a UUID, with [`MetadataError::NotUuid`].
pub fn source_context_id(value: Option<Option<&str>>) -> (r: Result<u128, MetadataError>)
    ensures
        match value {
            None => r == Err::<u128, MetadataError>(MetadataError::Missing),
            Some(None) => r == Err::<u128, MetadataError>(MetadataError::NotUuid),
            Some(Some(s)) => match uuid_parse(s@) {
                Some(id) => r == Ok::<u128, MetadataError>(id),
                None => r == Err::<u128, MetadataError>(MetadataError::NotUuid),
            },
        },
{
    match value {
        None => Err(MetadataError::Missing),
        Some(None) => Err(MetadataError::NotUuid),
        Some(Some(s)) => match parse_uuid(s) {
            Some(id) => Ok(id),
            None => Err(MetadataError::NotUuid),
        },
    }
}

/// What the service meets while reading one source's stream.
#[derive(Debug, Clone, Copy, PartialEq, Eq, Structural)]
pub enum StreamEvent {
    /// A batch of events arrived; `cached` tells whether a context of the
    /// stream's source is already held.
    Batch { cached: bool },
    /// Building the source's context succeeded (`true`) or failed.
    ContextBuilt(bool),
    /// The stream failed.
    Failed,
    /// The stream ended.
    Ended,
}

/// What the service does next while reading a source's stream.
#[derive(Debug, Clone, Copy, PartialEq, Eq, Structural)]
pub enum StreamAction {
    /// Feed the batch's events to the source's context, skipping those that
    /// cannot be decoded, then read on.
    Feed,
    /// Build a context for the source, hold it for later batches and streams
    /// of the same source, and report [`StreamEvent::ContextBuilt`].
    BuildContext,
    /// Drop the source's context, so that its output is flushed, and stop
    /// reading.
    DropContextAndStop,
    /// Stop reading; a context already held stays held.
    Stop,
}

/// The service's decision on each step of a source's stream: a batch goes to
/// the source's context, which is built on the source's first batch; a
/// context that cannot be built ends the stream; a failed stream drops the
/// source's context; a stream that ends keeps it.
pub fn stream_step(event: StreamEvent) -> (action: StreamAction)
    ensures
        action == match event {
            StreamEvent::Batch { cached: true } => StreamAction::Feed,
            StreamEvent::Batch { cached: false } => StreamAction::BuildContext,
            StreamEvent::ContextBuilt(true) => StreamAction::Feed,
            StreamEvent::ContextBuilt(false) => StreamAction::Stop,
            StreamEvent::Failed => StreamAction::DropContextAndStop,
            StreamEvent::Ended => StreamAction::Stop,
        },
{
    match event {
        StreamEvent::Batch { cached } => if cached {
            StreamAction::Feed
        } else {
            StreamAction::BuildContext
        },
        StreamEvent::ContextBuilt(built) => if built {
            StreamAction::Feed
        } else {
            StreamAction::Stop
        },
        StreamEvent::Failed => StreamAction::DropContextAndStop,
        StreamEvent::Ended => StreamAction::Stop,
    }
}

} // verus!
