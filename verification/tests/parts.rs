use repackage::codec::ManifestSummary;
use repackage::entry::{Entry, ReadEnd, HEADER_LEN};
use repackage::error::{Error, Stage};
use repackage::manifest::{check_manifest, edit_manifest};
use repackage::name::{infer_name, resolve_name};
use repackage::path::{path_file_name, path_first_segment, rewrite_path, route, Route};
use repackage::plan::{check_file_name, file_stem, plan, substitution_pattern};
use repackage::source::{rewrite_references, rewrite_source};
use repackage::text::{contains, find_byte, matches_at, replace_all, rfind_byte, same_bytes};
use repackage::transcode::{convert, end_walk, repackage};
use std::io::Read;

/// A header block for a file of `size` bytes.
fn header(size: u64) -> Vec<u8> {
    let mut header = tar::Header::new_gnu();
    header.set_size(size);
    header.set_mode(0o644);
    header.set_cksum();
    header.as_bytes().to_vec()
}

/// An entry at `path` that holds `data`.
fn entry(path: &str, data: &[u8]) -> Entry {
    Entry::new(header(data.len() as u64), path.as_bytes().to_vec(), data.to_vec()).unwrap()
}

/// Whether the checksum in `header` is the one that its bytes call for.
fn checksum_holds(header: &[u8]) -> bool {
    let sum: u32 = header[..148]
        .iter()
        .chain(&header[156..])
        .fold(0u32, |a, b| a + (*b as u32))
        + 8 * 32;
    tar::Header::from_byte_slice(header).cksum().ok() == Some(sum)
}

#[test]
fn name_is_read_off_the_file_name() {
    assert_eq!(infer_name("foo-0.1.0.crate"), Some("foo"));
    assert_eq!(infer_name("with-tests-0.1.0.crate"), Some("with-tests"));
    assert_eq!(infer_name("netscape-0.1.0.crate"), Some("netscape"));
    assert_eq!(infer_name("foo-12.crate"), Some("foo"));
    assert_eq!(infer_name("foo-1."), Some("foo"));
    assert_eq!(infer_name("a-b-c-3.4"), Some("a-b-c"));
    assert_eq!(infer_name("gr\u{fc}n-1.0.0.crate"), Some("gr\u{fc}n"));
}

#[test]
fn name_is_not_read_off_other_file_names() {
    assert_eq!(infer_name(""), None);
    assert_eq!(infer_name("foo"), None);
    assert_eq!(infer_name("foo-1"), None);
    assert_eq!(infer_name("foo.crate"), None);
    assert_eq!(infer_name("foo-.crate"), None);
    assert_eq!(infer_name("-1.crate"), None);
    assert_eq!(infer_name("foo-1a.0.crate"), None);
    assert_eq!(infer_name("foo-rc.1.crate"), None);
    assert_eq!(infer_name("foo.1-2.crate"), None);
    assert_eq!(infer_name("foo-\u{664}.crate"), None);
}

#[test]
fn prefix_of_the_name_is_refused() {
    assert_eq!(
        resolve_name("netscape-0.1.0.crate", Some("net")),
        Err(Error::NameMismatch { found: Some(b"netscape".to_vec()), expected: b"net".to_vec() })
    );
    assert_eq!(resolve_name("netscape-0.1.0.crate", Some("netscape")), Ok("netscape"));
    assert_eq!(resolve_name("netscape-0.1.0.crate", None), Ok("netscape"));
    assert_eq!(resolve_name("net-0.1.0.crate", Some("net")), Ok("net"));
}

#[test]
fn name_that_cannot_be_resolved_is_reported() {
    assert_eq!(resolve_name("archive.tar.gz", None), Err(Error::NameInferenceFailed));
    assert_eq!(
        resolve_name("archive.tar.gz", Some("archive")),
        Err(Error::NameMismatch { found: None, expected: b"archive".to_vec() })
    );
}

#[test]
fn plan_holds_names_directories_and_patterns() {
    let drawn = plan("with-tests-0.1.0.crate", Some("with-tests"), "w-t").unwrap();
    assert_eq!(drawn.old_name, b"with-tests");
    assert_eq!(drawn.new_name, b"w-t");
    assert_eq!(drawn.file_name, "w-t-0.1.0.crate");
    assert_eq!(drawn.base, b"with-tests-0.1.0");
    assert_eq!(drawn.new_base, b"w-t-0.1.0");
    assert_eq!(drawn.from, b" with_tests::");
    assert_eq!(drawn.to, b" w_t::");
}

#[test]
fn plan_replaces_every_occurrence_in_the_file_name() {
    let drawn = plan("a-0.1.0.crate", None, "bb").unwrap();
    assert_eq!(drawn.file_name, "bb-0.1.0.crbbte");
    assert_eq!(drawn.base, b"a-0.1.0");
    assert_eq!(drawn.new_base, b"bb-0.1.0");
}

#[test]
fn plan_refuses_what_is_no_file_name() {
    assert_eq!(plan("", None, "bar"), Err(Error::InvalidInputPath));
    assert_eq!(plan(".", None, "bar"), Err(Error::InvalidInputPath));
    assert_eq!(plan("..", None, "bar"), Err(Error::InvalidInputPath));
    assert_eq!(plan("dir/foo-0.1.0.crate", None, "bar"), Err(Error::InvalidInputPath));
    assert_eq!(plan("/foo-0.1.0.crate", Some("foo"), "bar"), Err(Error::InvalidInputPath));
    assert_eq!(plan("foo.crate", None, "bar"), Err(Error::NameInferenceFailed));
    assert!(check_file_name(b"..."));
    assert!(check_file_name(b"a"));
    assert!(!check_file_name(b"a/"));
}

#[test]
fn stem_ends_before_the_last_dot() {
    assert_eq!(file_stem(b"foo-0.1.0.crate"), b"foo-0.1.0");
    assert_eq!(file_stem(b"foo-1.2.3"), b"foo-1.2");
    assert_eq!(file_stem(b"foo"), b"foo");
    assert_eq!(file_stem(b".crate"), b".crate");
    assert_eq!(file_stem(b"foo."), b"foo");
    assert_eq!(file_stem(b""), b"");
}

#[test]
fn pattern_has_space_underscores_and_colons() {
    assert_eq!(substitution_pattern(b"toml"), b" toml::");
    assert_eq!(substitution_pattern(b"a-b-c"), b" a_b_c::");
    assert_eq!(substitution_pattern(b"a_b"), b" a_b::");
    assert_eq!(substitution_pattern(b""), b" ::");
}

#[test]
fn bytes_are_found() {
    assert_eq!(find_byte(b"a.b.c", b'.'), Some(1));
    assert_eq!(rfind_byte(b"a.b.c", b'.'), Some(3));
    assert_eq!(find_byte(b"abc", b'.'), None);
    assert_eq!(rfind_byte(b"", b'.'), None);
    assert!(matches_at(b"hello", b"ll", 2));
    assert!(!matches_at(b"hello", b"ll", 3));
    assert!(!matches_at(b"hello", b"lo", 4));
    assert!(matches_at(b"hello", b"", 5));
    assert!(!matches_at(b"hello", b"", 6));
    assert!(same_bytes(b"abc", b"abc"));
    assert!(!same_bytes(b"abc", b"abd"));
    assert!(!same_bytes(b"abc", b"ab"));
    assert!(contains(b"hello", b"lo"));
    assert!(contains(b"hello", b""));
    assert!(!contains(b"hello", b"ol"));
    assert!(!contains(b"", b"a"));
}

#[test]
fn every_occurrence_is_replaced_once() {
    assert_eq!(replace_all(b"a-b-c", b"-", b"_"), b"a_b_c");
    assert_eq!(replace_all(b"aaa", b"aa", b"b"), b"ba");
    assert_eq!(replace_all(b"aaaa", b"aa", b"b"), b"bb");
    assert_eq!(replace_all(b"abc", b"abc", b""), b"");
    assert_eq!(replace_all(b"abc", b"", b"x"), b"abc");
    assert_eq!(replace_all(b"abc", b"abcd", b"x"), b"abc");
    assert_eq!(replace_all(b" a:: a::", b" a::", b" ab::"), b" ab:: ab::");
    assert_eq!(replace_all(b"xx", b"x", b"xx"), b"xxxx");
    assert_eq!(replace_all(b"", b"x", b"y"), b"");
}

#[test]
fn substitution_respects_boundaries() {
    let from = substitution_pattern(b"toml");
    let to = substitution_pattern(b"newname");
    assert_eq!(rewrite_references(b"use foo_toml::bar;", &from, &to), b"use foo_toml::bar;");
    assert_eq!(rewrite_references(b"use foo::toml::bar;", &from, &to), b"use foo::toml::bar;");
    assert_eq!(rewrite_references(b" toml::some_func(a)", &from, &to), b" newname::some_func(a)");
    assert_eq!(rewrite_references(b"\ttoml::x(); .any(toml::is_foo)", &from, &to), b"\ttoml::x(); .any(toml::is_foo)");
    assert_eq!(rewrite_references(b"use toml;\nextern crate toml;", &from, &to), b"use toml;\nextern crate toml;");
    assert_eq!(
        rewrite_references(b"use toml::a; fn f() { toml::b( toml::c) }", &from, &to),
        b"use newname::a; fn f() { newname::b( newname::c) }"
    );
}

#[test]
fn source_has_to_be_text() {
    assert_eq!(rewrite_source(b"x toml::y", b" toml::", b" t::"), Ok(b"x t::y".to_vec()));
    assert_eq!(rewrite_source("gr\u{fc}n toml::y".as_bytes(), b" toml::", b" t::"), Ok("gr\u{fc}n t::y".as_bytes().to_vec()));
    assert_eq!(rewrite_source(&[0xff, 0x20], b" toml::", b" t::"), Err(Error::Codec { stage: Stage::ReadSource }));
    assert_eq!(rewrite_source(&[0xc3], b" toml::", b" t::"), Err(Error::Codec { stage: Stage::ReadSource }));
    assert_eq!(rewrite_source(b"", b" toml::", b" t::"), Ok(Vec::new()));
}

#[test]
fn paths_move_with_the_package() {
    assert_eq!(rewrite_path(b"foo-0.1.0/src/lib.rs", b"foo-0.1.0", b"bar-0.1.0"), Ok(b"bar-0.1.0/src/lib.rs".to_vec()));
    assert_eq!(rewrite_path(b"foo-0.1.0", b"foo-0.1.0", b"bar-0.1.0"), Ok(b"bar-0.1.0".to_vec()));
    assert_eq!(rewrite_path(b"foo-0.1.0/", b"foo-0.1.0", b"b"), Ok(b"b/".to_vec()));
    assert_eq!(
        rewrite_path(b"foo-0.1.0-rc/x", b"foo-0.1.0", b"bar-0.1.0"),
        Err(Error::EntryOutsidePackageRoot { path: b"foo-0.1.0-rc/x".to_vec() })
    );
    assert_eq!(
        rewrite_path(b"./foo-0.1.0/x", b"foo-0.1.0", b"bar-0.1.0"),
        Err(Error::EntryOutsidePackageRoot { path: b"./foo-0.1.0/x".to_vec() })
    );
    assert_eq!(
        rewrite_path(b"foo", b"foo-0.1.0", b"bar-0.1.0"),
        Err(Error::EntryOutsidePackageRoot { path: b"foo".to_vec() })
    );
    assert_eq!(rewrite_path(b"", b"foo", b"bar"), Err(Error::EntryOutsidePackageRoot { path: Vec::new() }));
}

#[test]
fn file_name_is_the_last_segment_that_counts() {
    assert_eq!(path_file_name(b"a/b/Cargo.toml"), Some(&b"Cargo.toml"[..]));
    assert_eq!(path_file_name(b"Cargo.toml"), Some(&b"Cargo.toml"[..]));
    assert_eq!(path_file_name(b"a/b/"), Some(&b"b"[..]));
    assert_eq!(path_file_name(b"a/b/."), Some(&b"b"[..]));
    assert_eq!(path_file_name(b"a/b/.//./"), Some(&b"b"[..]));
    assert_eq!(path_file_name(b"a/.."), None);
    assert_eq!(path_file_name(b"a/../"), None);
    assert_eq!(path_file_name(b""), None);
    assert_eq!(path_file_name(b"/"), None);
    assert_eq!(path_file_name(b"."), None);
    assert_eq!(path_file_name(b"./"), None);
    assert_eq!(path_file_name(b"a/..."), Some(&b"..."[..]));
    assert_eq!(path_file_name(b"a/.b"), Some(&b".b"[..]));
}

#[test]
fn first_segment_is_the_first_that_counts() {
    assert_eq!(path_first_segment(b"/src/lib.rs"), b"src");
    assert_eq!(path_first_segment(b"src"), b"src");
    assert_eq!(path_first_segment(b"//./src/x"), b"src");
    assert_eq!(path_first_segment(b"/srcs/x"), b"srcs");
    assert_eq!(path_first_segment(b"/../src"), b"..");
    assert_eq!(path_first_segment(b""), b"");
    assert_eq!(path_first_segment(b"/./"), b"");
    assert_eq!(path_first_segment(b"/.src/x"), b".src");
}

#[test]
fn entries_are_routed_by_name_and_place() {
    let root = "bar-0.1.0".len();
    assert_eq!(route(b"bar-0.1.0/Cargo.toml", root), Route::Manifest);
    assert_eq!(route(b"bar-0.1.0/sub/Cargo.toml", root), Route::Manifest);
    assert_eq!(route(b"bar-0.1.0/src/Cargo.toml", root), Route::Manifest);
    assert_eq!(route(b"bar-0.1.0/Cargo.toml.orig", root), Route::Passthrough);
    assert_eq!(route(b"bar-0.1.0/cargo.toml", root), Route::Passthrough);
    assert_eq!(route(b"bar-0.1.0/Cargo.lock", root), Route::Passthrough);
    assert_eq!(route(b"bar-0.1.0/tests/it.rs", root), Route::Source);
    assert_eq!(route(b"bar-0.1.0/build.rs", root), Route::Source);
    assert_eq!(route(b"bar-0.1.0/examples/src/x.rs", root), Route::Source);
    assert_eq!(route(b"bar-0.1.0/srcs/x.rs", root), Route::Source);
    assert_eq!(route(b"bar-0.1.0/src/lib.rs", root), Route::Passthrough);
    assert_eq!(route(b"bar-0.1.0/src/a/b.rs", root), Route::Passthrough);
    assert_eq!(route(b"bar-0.1.0//./src/a/b.rs", root), Route::Passthrough);
    assert_eq!(route(b"bar-0.1.0/src.rs", root), Route::Source);
    assert_eq!(route(b"bar-0.1.0/README.md", root), Route::Passthrough);
    assert_eq!(route(b"bar-0.1.0/tests/.rs", root), Route::Passthrough);
    assert_eq!(route(b"bar-0.1.0/tests/x.rs.bk", root), Route::Passthrough);
    assert_eq!(route(b"bar-0.1.0/tests/rs", root), Route::Passthrough);
    assert_eq!(route(b"bar-0.1.0", root), Route::Passthrough);
    assert_eq!(route(b"bar-0.1.0/", root), Route::Passthrough);
}

#[test]
fn workspace_is_refused_whatever_the_package() {
    let workspace = ManifestSummary { is_workspace: true, package_name: Some(b"foo".to_vec()) };
    assert_eq!(check_manifest(&workspace, b"foo"), Err(Error::WorkspaceNotSupported));
    let workspace = ManifestSummary { is_workspace: true, package_name: Some(b"other".to_vec()) };
    assert_eq!(check_manifest(&workspace, b"foo"), Err(Error::WorkspaceNotSupported));
    let workspace = ManifestSummary { is_workspace: true, package_name: None };
    assert_eq!(check_manifest(&workspace, b"foo"), Err(Error::WorkspaceNotSupported));
}

#[test]
fn manifest_has_to_name_the_package() {
    let package = ManifestSummary { is_workspace: false, package_name: Some(b"foo".to_vec()) };
    assert_eq!(check_manifest(&package, b"foo"), Ok(()));
    assert_eq!(
        check_manifest(&package, b"fo"),
        Err(Error::NameMismatch { found: Some(b"foo".to_vec()), expected: b"fo".to_vec() })
    );
    let nothing = ManifestSummary { is_workspace: false, package_name: None };
    assert_eq!(check_manifest(&nothing, b"foo"), Err(Error::MissingPackageSection));
}

#[test]
fn manifest_is_edited() {
    let manifest = b"[package]\nname = \"foo\"\nversion = \"0.1.0\"\n";
    let edited = edit_manifest(manifest, b"foo", b"bar").unwrap();
    assert_ne!(edited, manifest.to_vec());
    let parsed = cargo_toml::Manifest::from_slice(&edited).unwrap();
    assert_eq!(parsed.package.unwrap().name, "bar");
    assert_eq!(edit_manifest(b"name = ", b"foo", b"bar"), Err(Error::ManifestParseError));
    assert_eq!(
        edit_manifest(manifest, b"bar", b"baz"),
        Err(Error::NameMismatch { found: Some(b"foo".to_vec()), expected: b"bar".to_vec() })
    );
    assert_eq!(
        edit_manifest(b"[workspace]\nmembers = []\n", b"foo", b"bar"),
        Err(Error::WorkspaceNotSupported)
    );
    assert_eq!(
        edit_manifest(manifest, b"foo", &[0xff, 0xfe]),
        Err(Error::Codec { stage: Stage::SerializeManifest })
    );
}

#[test]
fn entry_holds_a_whole_header_block() {
    assert_eq!(HEADER_LEN, 512);
    assert!(Entry::new(vec![0; 511], Vec::new(), Vec::new()).is_none());
    assert!(Entry::new(vec![0; 513], Vec::new(), Vec::new()).is_none());
    assert!(Entry::new(Vec::new(), Vec::new(), Vec::new()).is_none());
    let made = Entry::new(vec![7; 512], b"a/b".to_vec(), b"data".to_vec()).unwrap();
    assert_eq!(made.header(), &[7u8; 512][..]);
    assert_eq!(made.path(), b"a/b");
    assert_eq!(made.data(), b"data");
    assert_eq!(made.into_parts(), (vec![7; 512], b"a/b".to_vec(), b"data".to_vec()));
}

#[test]
fn manifest_entry_is_renamed_and_sized() {
    let drawn = plan("foo-0.1.0.crate", None, "quite_a_long_name").unwrap();
    let manifest = b"[package]\nname = \"foo\"\nversion = \"0.1.0\"\n";
    let old = entry("foo-0.1.0/Cargo.toml", manifest);
    let old_header = old.header().to_vec();
    let (new, chosen) = convert(old, &drawn).unwrap();
    assert_eq!(chosen, Route::Manifest);
    assert_eq!(new.path(), b"quite_a_long_name-0.1.0/Cargo.toml");
    assert_ne!(new.header(), &old_header[..]);
    let header = tar::Header::from_byte_slice(new.header());
    assert_eq!(header.size().unwrap(), new.data().len() as u64);
    assert_ne!(new.data().len(), manifest.len());
    assert_eq!(header.mode().unwrap(), 0o644);
    assert!(checksum_holds(new.header()));
    let parsed = cargo_toml::Manifest::from_slice(new.data()).unwrap();
    assert_eq!(parsed.package.unwrap().name, "quite_a_long_name");
}

#[test]
fn source_entry_is_rewritten_and_sized() {
    let drawn = plan("foo-0.1.0.crate", None, "barbar").unwrap();
    let old = entry("foo-0.1.0/tests/it.rs", b"fn t() { foo::run() }");
    let old_header = old.header().to_vec();
    let (new, chosen) = convert(old, &drawn).unwrap();
    assert_eq!(chosen, Route::Source);
    assert_eq!(new.path(), b"barbar-0.1.0/tests/it.rs");
    assert_eq!(new.data(), b"fn t() { barbar::run() }");
    assert_ne!(new.header(), &old_header[..]);
    assert_eq!(tar::Header::from_byte_slice(new.header()).size().unwrap(), 24);
}

#[test]
fn other_entry_is_kept() {
    let drawn = plan("foo-0.1.0.crate", None, "bar").unwrap();
    for path in ["foo-0.1.0/src/lib.rs", "foo-0.1.0/README.md", "foo-0.1.0/src/bin/x.rs"] {
        let old = entry(path, b"fn t() { foo::run() }");
        let old_header = old.header().to_vec();
        let (new, chosen) = convert(old, &drawn).unwrap();
        assert_eq!(chosen, Route::Passthrough);
        assert_eq!(new.data(), b"fn t() { foo::run() }");
        assert_eq!(new.header(), &old_header[..]);
        assert_eq!(new.path(), format!("bar{}", &path[3..]).as_bytes());
    }
}

#[test]
fn entry_that_cannot_be_converted_is_reported() {
    let drawn = plan("foo-0.1.0.crate", None, "bar").unwrap();
    assert_eq!(
        convert(entry("foo/Cargo.toml", b""), &drawn),
        Err(Error::EntryOutsidePackageRoot { path: b"foo/Cargo.toml".to_vec() })
    );
    assert_eq!(convert(entry("foo-0.1.0/Cargo.toml", b"[["), &drawn), Err(Error::ManifestParseError));
    assert_eq!(
        convert(entry("foo-0.1.0/tests/a.rs", &[0x80]), &drawn),
        Err(Error::Codec { stage: Stage::ReadSource })
    );
}

#[test]
fn entries_are_repackaged() {
    let drawn = plan("foo-0.1.0.crate", None, "bar").unwrap();
    let entries = vec![
        entry("foo-0.1.0/LICENSE", b"free"),
        entry("foo-0.1.0/Cargo.toml", b"[package]\nname = \"foo\"\nversion = \"0.1.0\"\n"),
        entry("foo-0.1.0/benches/b.rs", b"use foo::x;"),
    ];
    let archive = repackage(entries, ReadEnd::Complete, &drawn).unwrap();
    let mut tar = tar::Archive::new(flate2::read::GzDecoder::new(&archive[..]));
    let mut seen = Vec::new();
    for found in tar.entries().unwrap() {
        let mut found = found.unwrap();
        let mut data = Vec::new();
        found.read_to_end(&mut data).unwrap();
        seen.push((found.path_bytes().into_owned(), data));
    }
    assert_eq!(seen.len(), 3);
    assert_eq!(seen[0], (b"bar-0.1.0/LICENSE".to_vec(), b"free".to_vec()));
    assert_eq!(seen[1].0, b"bar-0.1.0/Cargo.toml");
    assert_eq!(seen[2], (b"bar-0.1.0/benches/b.rs".to_vec(), b"use bar::x;".to_vec()));
}

#[test]
fn walk_ends_with_the_first_failure() {
    let drawn = plan("foo-0.1.0.crate", None, "bar").unwrap();
    let manifest: &[u8] = b"[package]\nname = \"foo\"\nversion = \"0.1.0\"\n";
    let entries = vec![entry("foo-0.1.0/a", b""), entry("elsewhere/b", b""), entry("foo-0.1.0/Cargo.toml", b"[[")];
    assert_eq!(
        repackage(entries, ReadEnd::BrokenWalk, &drawn),
        Err(Error::EntryOutsidePackageRoot { path: b"elsewhere/b".to_vec() })
    );
    let entries = vec![entry("foo-0.1.0/Cargo.toml", manifest)];
    assert_eq!(repackage(entries, ReadEnd::BrokenWalk, &drawn), Err(Error::Codec { stage: Stage::WalkEntries }));
    let entries = vec![entry("foo-0.1.0/a", b"")];
    assert_eq!(repackage(entries, ReadEnd::BrokenWalk, &drawn), Err(Error::Codec { stage: Stage::WalkEntries }));
    let entries = vec![entry("foo-0.1.0/a", b"")];
    assert_eq!(repackage(entries, ReadEnd::Complete, &drawn), Err(Error::MissingManifest));
    assert_eq!(repackage(Vec::new(), ReadEnd::Complete, &drawn), Err(Error::MissingManifest));
}

#[test]
fn entry_that_the_archive_does_not_take_is_reported() {
    let drawn = plan("foo-0.1.0.crate", None, "bar").unwrap();
    let manifest: &[u8] = b"[package]\nname = \"foo\"\nversion = \"0.1.0\"\n";
    let entries = vec![entry("foo-0.1.0/../x", b"")];
    assert_eq!(repackage(entries, ReadEnd::Complete, &drawn), Err(Error::Codec { stage: Stage::AppendUnmodified }));
    let entries = vec![entry("foo-0.1.0/../x.rs", b"")];
    assert_eq!(repackage(entries, ReadEnd::Complete, &drawn), Err(Error::Codec { stage: Stage::AppendSource }));
    let entries = vec![entry("foo-0.1.0/../x/Cargo.toml", manifest)];
    assert_eq!(repackage(entries, ReadEnd::Complete, &drawn), Err(Error::Codec { stage: Stage::AppendManifest }));
    let odd = Entry::new(header(0), vec![b'f', b'o', b'o', b'-', b'0', b'.', b'1', b'.', b'0', b'/', 0xff], Vec::new()).unwrap();
    assert_eq!(repackage(vec![odd], ReadEnd::Complete, &drawn), Err(Error::Codec { stage: Stage::AppendUnmodified }));
}

#[test]
fn broken_walk_fails_where_it_broke() {
    let drawn = plan("foo-0.1.0.crate", None, "bar").unwrap();
    assert_eq!(end_walk(&ReadEnd::Complete, &drawn), Ok(()));
    assert_eq!(
        end_walk(&ReadEnd::BrokenWalk, &drawn),
        Err(Error::Codec { stage: Stage::WalkEntries })
    );
    let at = |path: &str| ReadEnd::BrokenEntry { path: path.as_bytes().to_vec() };
    assert_eq!(
        end_walk(&at("foo-0.1.0/Cargo.toml"), &drawn),
        Err(Error::Codec { stage: Stage::ReadManifest })
    );
    assert_eq!(
        end_walk(&at("foo-0.1.0/tests/it.rs"), &drawn),
        Err(Error::Codec { stage: Stage::ReadSource })
    );
    assert_eq!(
        end_walk(&at("foo-0.1.0/src/lib.rs"), &drawn),
        Err(Error::Codec { stage: Stage::AppendUnmodified })
    );
    assert_eq!(
        end_walk(&at("bar-0.1.0/src/lib.rs"), &drawn),
        Err(Error::EntryOutsidePackageRoot { path: b"bar-0.1.0/src/lib.rs".to_vec() })
    );
}

#[test]
fn broken_entry_fails_behind_the_entries_before_it() {
    let drawn = plan("foo-0.1.0.crate", None, "bar").unwrap();
    let broken = || ReadEnd::BrokenEntry { path: b"foo-0.1.0/Cargo.toml".to_vec() };
    let entries = vec![entry("foo-0.1.0/a", b"")];
    assert_eq!(repackage(entries, broken(), &drawn), Err(Error::Codec { stage: Stage::ReadManifest }));
    let entries = vec![entry("foo-0.1.0/tests/a.rs", &[0xff])];
    assert_eq!(repackage(entries, broken(), &drawn), Err(Error::Codec { stage: Stage::ReadSource }));
}
