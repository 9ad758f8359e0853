//! Where and in which format events are exported and imported.
//!
//! Paths are held as text; a filesystem root is scoped to a context by
//! appending the context id, in its hyphenated form, as a path component.
use vstd::prelude::*;
use vstd::string::StringExecFns;

verus! {

/// The file formats of the filesystem exporters and importers.
#[derive(Debug, Clone, Copy, PartialEq, Eq)]
pub enum FileSystemFormat {
    Ndjson,
    Msgpack,
    Postcard,
}

/// Options of a filesystem exporter: the format, and the directory that
/// receives the files.
#[derive(Debug, Clone, PartialEq, Eq)]
pub struct FileSystemExporterOptions {
    pub format: FileSystemFormat,
    pub root: String,
}

/// Options of the exporter that streams events to a collector.
#[derive(Debug, Clone, PartialEq, Eq)]
pub struct CollectorExporterOptions {
    pub address: String,
}

/// Where events are exported.
#[derive(Debug, Clone, PartialEq, Eq)]
pub enum ExporterOptions {
    FileSystem(FileSystemExporterOptions),
    Collector(CollectorExporterOptions),
}

/// Exporter options bound to one context.
#[derive(Debug, Clone, PartialEq, Eq)]
pub enum ResolvedExporterOptions {
    FileSystem(FileSystemExporterOptions),
    Collector { address: String, source_context_id: u128 },
}

/// Options of a filesystem importer: the format, and the path to read.
#[derive(Debug, Clone, PartialEq, Eq)]
pub struct FileSystemImporterOptions {
    pub format: FileSystemFormat,
    pub path: String,
}

/// Where events are imported from.
#[derive(Debug, Clone, PartialEq, Eq)]
pub enum ImporterOptions {
    FileSystem(FileSystemImporterOptions),
}

/// The lowercase hexadecimal digit of `d` (below 16).
pub open spec fn hex_digit(d: int) -> char {
    if d < 10 {
        (48 + d) as char
    } else {
        (87 + d) as char
    }
}

/// The lowest `n` hexadecimal digits of `x`, most significant first.
pub open spec fn hex_digits(x: nat, n: nat) -> Seq<char>
    decreases n,
{
    if n == 0 {
        Seq::empty()
    } else {
        hex_digits(x / 16, (n - 1) as nat).push(hex_digit((x % 16) as int))
    }
}

/// The hyphenated text of an id: its 32 lowercase hexadecimal digits in
/// groups of 8, 4, 4, 4 and 12, separated by hyphens.
pub open spec fn uuid_text(id: u128) -> Seq<char> {
    let h = hex_digits(id as nat, 32);
    h.subrange(0, 8) + seq!['-'] + h.subrange(8, 12) + seq!['-'] + h.subrange(12, 16) + seq!['-']
        + h.subrange(16, 20) + seq!['-'] + h.subrange(20, 32)
}

/// `child` appended to the directory `root` as a path component: with a
/// separator between them unless `root` is empty or already ends in one.
pub open spec fn join_path(root: Seq<char>, child: Seq<char>) -> Seq<char> {
    if root.len() == 0 {
        child
    } else if root.last() == '/' {
        root + child
    } else {
        root + seq!['/'] + child
    }
}

/// The hyphenated text of an id, by the `uuid` crate's `Display` of
/// `Uuid::from_u128`: 32 lowercase hexadecimal digits in groups of 8, 4, 4,
/// 4 and 12 separated by hyphens.
#[verifier::external_body]
fn uuid_string(id: u128) -> (s: String)
    ensures
        s@ == uuid_text(id),
{
    uuid::Uuid::from_u128(id).to_string()
}

/// A URI of the `http` crate.
#[verifier::external_type_specification]
#[verifier::external_body]
pub struct ExUri(http::Uri);

/// The error of the `http` crate for a text that is not a URI.
#[verifier::external_type_specification]
#[verifier::external_body]
pub struct ExInvalidUri(http::uri::InvalidUri);

/// Whether the `http` crate reads `s` as a URI.
pub uninterp spec fn is_uri(s: Seq<char>) -> bool;

/// Parses `s` as a URI.
///
/// Trusted: `<http::Uri as FromStr>::from_str`, which reads a URI (an
/// absolute URI, an authority, or a path with optional query) and fails on
/// any other text, and on a text longer than the crate's limit. Whether it
/// succeeds depends on the text alone and is named [`is_uri`]; the URI it
/// gives back is not described.
#[verifier::external_body]
fn parse_uri(s: &str) -> (r: Result<http::Uri, http::uri::InvalidUri>)
    ensures
        r is Ok <==> is_uri(s@),
{
    s.parse::<http::Uri>()
}

/// A collector address that is not a URI.
#[derive(Debug)]
pub struct InvalidCollectorAddress {
    /// The address as given.
    pub address: String,
    /// Why the `http` crate refused it.
    pub error: http::uri::InvalidUri,
}

/// The URI of the collector at `address`, or the reason it is not one.
pub fn collector_uri(address: &str) -> (r: Result<http::Uri, InvalidCollectorAddress>)
    ensures
        r is Ok <==> is_uri(address@),
        r matches Err(e) ==> e.address@ == address@,
{
    match parse_uri(address) {
        Ok(uri) => Ok(uri),
        Err(error) => Err(InvalidCollectorAddress { address: address.to_string(), error }),
    }
}

impl ExporterOptions {
    /// Binds these options to the context `id`: a filesystem root is scoped
    /// to the context's directory, the collector gets `id` as its source
    /// context.
    pub fn resolve(self, id: u128) -> (r: ResolvedExporterOptions)
        ensures
            match self {
                ExporterOptions::FileSystem(o) => r matches ResolvedExporterOptions::FileSystem(ro)
                    && ro.format == o.format && ro.root@ == join_path(o.root@, uuid_text(id)),
                ExporterOptions::Collector(o) => r matches ResolvedExporterOptions::Collector {
                    address,
                    source_context_id,
                } && address@ == o.address@ && source_context_id == id,
            },
    {
        match self {
            ExporterOptions::FileSystem(options) => {
                let FileSystemExporterOptions { format, root } = options;
                let child = uuid_string(id);
                let n = root.unicode_len();
                let mut joined = root;
                if n == 0 {
                    joined = child;
                } else {
                    let last = joined.as_str().get_char(n - 1);
                    if last != '/' {
                        joined.append("/");
                        proof {
                            reveal_strlit("/");
                        }
                    }
                    joined.append(child.as_str());
                }
                ResolvedExporterOptions::FileSystem(FileSystemExporterOptions { format, root: joined })
            },
            ExporterOptions::Collector(options) => ResolvedExporterOptions::Collector {
                address: options.address,
                source_context_id: id,
            },
        }
    }
}

impl ResolvedExporterOptions {
    /// The output directory of a filesystem exporter; `None` for exporters
    /// (such as the collector) that write no local directory.
    pub fn filesystem_root(&self) -> (r: Option<&String>)
        ensures
            match self {
                ResolvedExporterOptions::FileSystem(o) => r == Some(&o.root),
                ResolvedExporterOptions::Collector { .. } => r is None,
            },
    {
        match self {
            ResolvedExporterOptions::FileSystem(options) => Some(&options.root),
            ResolvedExporterOptions::Collector { .. } => None,
        }
    }
}

} // verus!
