use quent::exporter::collector_uri;
use quent::exporter::{
    CollectorExporterOptions, ExporterOptions, FileSystemExporterOptions, FileSystemFormat,
    ResolvedExporterOptions,
};

#[test]
fn filesystem_root_is_scoped_to_the_context() {
    let options = ExporterOptions::FileSystem(FileSystemExporterOptions {
        format: FileSystemFormat::Ndjson,
        root: "out".to_string(),
    });
    let resolved = options.resolve(0x0123_4567_89ab_cdef_0011_2233_4455_6677);
    assert_eq!(
        resolved,
        ResolvedExporterOptions::FileSystem(FileSystemExporterOptions {
            format: FileSystemFormat::Ndjson,
            root: "out/01234567-89ab-cdef-0011-223344556677".to_string(),
        })
    );
    assert_eq!(
        resolved.filesystem_root().map(|r| r.as_str()),
        Some("out/01234567-89ab-cdef-0011-223344556677")
    );
}

#[test]
fn root_with_separator_or_empty_gets_no_extra_separator() {
    let resolve = |root: &str| match ExporterOptions::FileSystem(FileSystemExporterOptions {
        format: FileSystemFormat::Postcard,
        root: root.to_string(),
    })
    .resolve(1)
    {
        ResolvedExporterOptions::FileSystem(o) => o.root,
        other => panic!("unexpected {other:?}"),
    };
    assert_eq!(resolve("out/"), "out/00000000-0000-0000-0000-000000000001");
    assert_eq!(resolve(""), "00000000-0000-0000-0000-000000000001");
}

#[test]
fn collector_gets_the_source_context() {
    let resolved = ExporterOptions::Collector(CollectorExporterOptions {
        address: "http://localhost:7836".to_string(),
    })
    .resolve(9);
    assert_eq!(
        resolved,
        ResolvedExporterOptions::Collector {
            address: "http://localhost:7836".to_string(),
            source_context_id: 9,
        }
    );
    assert!(resolved.filesystem_root().is_none());
}

#[test]
fn collector_address_parses_as_a_uri() {
    let uri = collector_uri("http://127.0.0.1:7836").unwrap();
    assert_eq!(uri.host(), Some("127.0.0.1"));
    assert_eq!(uri.port_u16(), Some(7836));
}

#[test]
fn collector_address_that_is_not_a_uri_is_refused() {
    let err = collector_uri("http://exa mple:80").unwrap_err();
    assert_eq!(err.address, "http://exa mple:80");
    assert!(!err.error.to_string().is_empty());
}
