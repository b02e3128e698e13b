//! Solus eopkg registry: the repository index (`eopkg-index.xml.xz`) and where
//! each package's `.eopkg` file is downloaded from.
use vstd::prelude::*;

use crate::error::OilError;
use crate::registry::{cache_file_name, cache_file_spec, PackageMetadata};
use crate::text::{decode_utf8_text, owned, push_str, str_eq, str_starts_with, starts_with};
use crate::xml::{events_view, read_xml_events, xml_events, AttrView, XmlAttr, XmlEvent, XmlEventView};

verus! {

/// What xz decompression makes of `data`: the decompressed bytes, or `None`
/// when `data` is not a valid xz stream.
pub uninterp spec fn xz_decoded(data: Seq<u8>) -> Option<Seq<u8>>;

/// `xz2::read::XzDecoder::new` over `data`, read with `Read::read_to_end`: the
/// decompressed bytes, or the text of the error. The contract ties the result
/// to `xz_decoded`; what that is for given bytes, and the error's wording, are
/// not stated.
#[verifier::external_body]
pub(crate) fn xz_decompress(data: &[u8]) -> (r: Result<Vec<u8>, String>)
    ensures
        match r {
            Ok(v) => xz_decoded(data@) == Some(v@),
            Err(_) => xz_decoded(data@) is None,
        },
{
    let mut out = Vec::new();
    match std::io::Read::read_to_end(&mut xz2::read::XzDecoder::new(data), &mut out) {
        Ok(_) => Ok(out),
        Err(e) => Err(e.to_string()),
    }
}

/// A Solus repository: the mirror it is served from and the repository name.
pub struct EopkgRegistry {
    mirror: String,
    repo: String,
}

/// `s` without the `/` characters at its end (`str::trim_end_matches('/')`).
pub open spec fn trim_end_slashes(s: Seq<char>) -> Seq<char>
    decreases s.len(),
{
    if s.len() > 0 && s.last() == '/' {
        trim_end_slashes(s.drop_last())
    } else {
        s
    }
}

/// `s.trim_end_matches('/')` as an owned string.
pub fn trim_trailing_slashes(s: &str) -> (r: String)
    ensures
        r@ == trim_end_slashes(s@),
{
    let v = crate::text::chars_of(s);
    let mut n = v.len();
    assert(v@.take(v@.len() as int) == v@);
    while n > 0 && v[n - 1] == '/'
        invariant
            n <= v@.len(),
            v@ == s@,
            trim_end_slashes(s@) == trim_end_slashes(v@.take(n as int)),
        decreases n,
    {
        assert(v@.take(n as int).drop_last() == v@.take(n - 1));
        n = n - 1;
    }
    assert(v@.subrange(0, n as int) == v@.take(n as int));
    crate::text::string_range(v.as_slice(), 0, n)
}

/// How long a cached index stays fresh, in seconds.
pub const INDEX_CACHE_SECS: u64 = 86400;

/// Is a cached index whose file was modified `age_secs` seconds ago (`None`
/// when that cannot be told) still fresh?
pub fn index_cache_fresh(age_secs: Option<u64>) -> (r: bool)
    ensures
        r == (age_secs matches Some(a) && a < INDEX_CACHE_SECS),
{
    match age_secs {
        Some(a) => a < INDEX_CACHE_SECS,
        None => false,
    }
}

impl EopkgRegistry {
    /// The mirror, without trailing `/`.
    pub closed spec fn mirror_spec(&self) -> Seq<char> {
        self.mirror@
    }

    /// The repository name.
    pub closed spec fn repo_spec(&self) -> Seq<char> {
        self.repo@
    }

    pub fn new(mirror: &str, repo: &str) -> (r: Self)
        ensures
            r.mirror_spec() == trim_end_slashes(mirror@),
            r.repo_spec() == repo@,
    {
        EopkgRegistry { mirror: trim_trailing_slashes(mirror), repo: owned(repo) }
    }

    /// The main Solus repository.
    pub fn solus_default() -> (r: Self)
        ensures
            r.mirror_spec() == "https://solus-project.com/repositories"@,
            r.repo_spec() == "main"@,
    {
        proof {
            reveal_strlit("https://solus-project.com/repositories");
        }
        let r = Self::new("https://solus-project.com/repositories", "main");
        assert(trim_end_slashes("https://solus-project.com/repositories"@)
            == "https://solus-project.com/repositories"@);
        r
    }

    /// The mirror the registry reads from.
    pub fn mirror(&self) -> (r: &str)
        ensures
            r@ == self.mirror_spec(),
    {
        self.mirror.as_str()
    }

    /// Where the compressed index lives.
    pub fn index_url(&self) -> (r: String)
        ensures
            r@ == self.mirror_spec() + "/eopkg-index.xml.xz"@,
    {
        let mut r = self.mirror.clone();
        push_str(&mut r, "/eopkg-index.xml.xz");
        r
    }

    /// The name of the file the parsed index is cached in.
    pub fn cache_file_name(&self) -> (r: String)
        ensures
            r@ == cache_file_spec("eopkg"@, self.mirror_spec(), self.repo_spec()),
    {
        cache_file_name("eopkg", self.mirror.as_str(), self.repo.as_str())
    }

    /// Is a cached index modified `age_secs` seconds ago still fresh?
    pub fn is_cache_fresh(age_secs: Option<u64>) -> (r: bool)
        ensures
            r == (age_secs matches Some(a) && a < INDEX_CACHE_SECS),
    {
        index_cache_fresh(age_secs)
    }

    /// The packages of a downloaded index: the bytes are xz-decompressed, read
    /// as UTF-8 and parsed (see `parse_eopkg_index`).
    pub fn decode_index(&self, bytes: &[u8]) -> (r: Result<Vec<PackageMetadata>, OilError>)
        ensures
            match r {
                Ok(pkgs) => xz_decoded(bytes@) matches Some(raw) && vstd::utf8::valid_utf8(raw)
                    && eopkg_packages_match(
                    pkgs@,
                    eopkg_entries(xml_events(vstd::utf8::decode_utf8(raw)), self.mirror_spec()),
                ),
                Err(e) => match xz_decoded(bytes@) {
                    None => e@ is Install && starts_with(
                        e.text(),
                        "Failed to decompress eopkg index: "@,
                    ),
                    Some(raw) => !vstd::utf8::valid_utf8(raw) && e@ is Install && starts_with(
                        e.text(),
                        "eopkg index not valid UTF-8: "@,
                    ),
                },
            },
    {
        let raw = match xz_decompress(bytes) {
            Ok(v) => v,
            Err(m) => {
                let mut msg = owned("Failed to decompress eopkg index: ");
                push_str(&mut msg, m.as_str());
                proof {
                    assert(msg@.take("Failed to decompress eopkg index: "@.len() as int)
                        == "Failed to decompress eopkg index: "@);
                }
                return Err(OilError::InstallError(msg));
            },
        };
        let xml = match decode_utf8_text(raw) {
            Ok(s) => s,
            Err(m) => {
                let mut msg = owned("eopkg index not valid UTF-8: ");
                push_str(&mut msg, m.as_str());
                proof {
                    assert(msg@.take("eopkg index not valid UTF-8: "@.len() as int)
                        == "eopkg index not valid UTF-8: "@);
                }
                return Err(OilError::InstallError(msg));
            },
        };
        Ok(parse_eopkg_index(xml.as_str(), self.mirror.as_str()))
    }
}

// ---------------------------------------------------------------------------
// The index document
// ---------------------------------------------------------------------------
/// What one `<Package>` element of the index yields.
pub struct EopkgEntry {
    pub name: Seq<char>,
    pub version: Seq<char>,
    pub description: Seq<char>,
    pub download_url: Seq<char>,
}

/// `p` is the package the index describes by `e`: no checksum, size,
/// dependencies or provided names are known from the index.
pub open spec fn is_eopkg_package(p: PackageMetadata, e: EopkgEntry) -> bool {
    &&& p.name@ == e.name
    &&& p.version@ == e.version
    &&& p.description@ == e.description
    &&& p.download_url@ == e.download_url
    &&& p.sha256 is None
    &&& p.installed_size == 0
    &&& p.depends@.len() == 0
    &&& p.provides@.len() == 0
}

pub open spec fn eopkg_packages_match(ps: Seq<PackageMetadata>, es: Seq<EopkgEntry>) -> bool {
    ps.len() == es.len() && forall|i: int| 0 <= i < ps.len() ==> is_eopkg_package(#[trigger] ps[i], es[i])
}

/// The state of a reading of the index, between events.
pub struct EopkgScan {
    /// Inside a `<Package>` element.
    pub in_package: bool,
    /// The element whose text is being read.
    pub tag: Seq<char>,
    pub name: Seq<char>,
    pub version: Seq<char>,
    pub description: Seq<char>,
    pub release: Seq<char>,
    pub uri: Seq<char>,
    pub arch: Seq<char>,
    /// The packages finished so far.
    pub done: Seq<EopkgEntry>,
}

pub open spec fn scan_start() -> EopkgScan {
    EopkgScan {
        in_package: false,
        tag: seq![],
        name: seq![],
        version: seq![],
        description: seq![],
        release: seq![],
        uri: seq![],
        arch: seq![],
        done: seq![],
    }
}

/// The package version: `version-release`, or `version` with no release.
pub open spec fn eopkg_version(version: Seq<char>, release: Seq<char>) -> Seq<char> {
    if release.len() == 0 {
        version
    } else {
        version + "-"@ + release
    }
}

/// Where the package is downloaded from: its `PackageURI` when that is a full
/// URL, or relative to the mirror; without one, the conventional
/// `packages/<name>/<name>-<version>-<arch>.eopkg` path on the mirror.
pub open spec fn eopkg_url(
    mirror: Seq<char>,
    name: Seq<char>,
    version: Seq<char>,
    uri: Seq<char>,
    arch: Seq<char>,
) -> Seq<char> {
    if starts_with(uri, "http"@) {
        uri
    } else if uri.len() > 0 {
        mirror + "/"@ + uri
    } else {
        mirror + "/packages/"@ + name + "/"@ + name + "-"@ + version + "-"@ + arch + ".eopkg"@
    }
}

/// The `summary` attribute's value after reading `attrs` in order, starting
/// from `cur`: each readable `summary` attribute replaces it.
pub open spec fn summary_after(attrs: Seq<AttrView>, cur: Seq<char>) -> Seq<char>
    decreases attrs.len(),
{
    if attrs.len() == 0 {
        cur
    } else {
        let prev = summary_after(attrs.drop_last(), cur);
        match attrs.last() {
            (k, Some(v)) => if k == "summary"@ {
                v
            } else {
                prev
            },
            _ => prev,
        }
    }
}

/// One event's effect on the reading.
pub open spec fn eopkg_step(s: EopkgScan, e: XmlEventView, mirror: Seq<char>) -> EopkgScan {
    match e {
        XmlEventView::Open(tag, attrs) => {
            if tag == "Package"@ {
                EopkgScan {
                    in_package: true,
                    name: seq![],
                    version: seq![],
                    description: seq![],
                    release: seq![],
                    uri: seq![],
                    arch: seq![],
                    ..s
                }
            } else if tag == "PackageURI"@ && s.in_package {
                EopkgScan { tag: "PackageURI"@, ..s }
            } else if tag == "Description"@ && s.in_package {
                EopkgScan { description: summary_after(attrs, s.description), ..s }
            } else if s.in_package {
                EopkgScan { tag: tag, ..s }
            } else {
                s
            }
        },
        XmlEventView::Text(text) => if !s.in_package {
            s
        } else if s.tag == "Name"@ {
            EopkgScan { name: text, ..s }
        } else if s.tag == "Version"@ {
            EopkgScan { version: text, ..s }
        } else if s.tag == "Release"@ {
            EopkgScan { release: text, ..s }
        } else if s.tag == "PackageURI"@ {
            EopkgScan { uri: text, ..s }
        } else if s.tag == "Architecture"@ {
            EopkgScan { arch: text, ..s }
        } else {
            s
        },
        XmlEventView::Close(tag) => if tag == "Package"@ && s.in_package && s.name.len() > 0 {
            let v = eopkg_version(s.version, s.release);
            let entry = EopkgEntry {
                name: s.name,
                version: v,
                description: s.description,
                download_url: eopkg_url(mirror, s.name, v, s.uri, s.arch),
            };
            EopkgScan { in_package: false, tag: seq![], done: s.done.push(entry), ..s }
        } else {
            EopkgScan { tag: seq![], ..s }
        },
        XmlEventView::Other => s,
    }
}

/// The reading after the events `es`.
pub open spec fn eopkg_scan(es: Seq<XmlEventView>, mirror: Seq<char>) -> EopkgScan
    decreases es.len(),
{
    if es.len() == 0 {
        scan_start()
    } else {
        eopkg_step(eopkg_scan(es.drop_last(), mirror), es.last(), mirror)
    }
}

/// The packages an index with the events `es` lists, in document order.
pub open spec fn eopkg_entries(es: Seq<XmlEventView>, mirror: Seq<char>) -> Seq<EopkgEntry> {
    eopkg_scan(es, mirror).done
}

/// Every package read from an index has a name.
pub proof fn law_eopkg_packages_named(es: Seq<XmlEventView>, mirror: Seq<char>)
    ensures
        forall|i: int| 0 <= i < eopkg_entries(es, mirror).len() ==> (#[trigger] eopkg_entries(es, mirror)[i]).name.len() > 0,
    decreases es.len(),
{
    if es.len() > 0 {
        law_eopkg_packages_named(es.drop_last(), mirror);
        let prev = eopkg_scan(es.drop_last(), mirror);
        let now = eopkg_scan(es, mirror);
        assert forall|i: int| 0 <= i < now.done.len() implies (#[trigger] now.done[i]).name.len() > 0 by {
            if i < prev.done.len() {
                assert(eopkg_entries(es.drop_last(), mirror)[i] == prev.done[i]);
            }
        }
    }
}

/// The reading state held in strings.
struct ScanState {
    in_package: bool,
    tag: String,
    name: String,
    version: String,
    description: String,
    release: String,
    uri: String,
    arch: String,
}

impl ScanState {
    spec fn agrees(&self, s: EopkgScan) -> bool {
        &&& self.in_package == s.in_package
        &&& self.tag@ == s.tag
        &&& self.name@ == s.name
        &&& self.version@ == s.version
        &&& self.description@ == s.description
        &&& self.release@ == s.release
        &&& self.uri@ == s.uri
        &&& self.arch@ == s.arch
    }
}

/// The `summary` value after the attributes `attrs` (see `summary_after`).
fn summary_of(attrs: &Vec<XmlAttr>, cur: &String) -> (r: String)
    ensures
        r@ == summary_after(attrs@.map_values(|a: XmlAttr| crate::xml::attr_view(a)), cur@),
{
    let ghost av = attrs@.map_values(|a: XmlAttr| crate::xml::attr_view(a));
    let mut r = cur.clone();
    let mut i: usize = 0;
    while i < attrs.len()
        invariant
            i <= attrs@.len(),
            av == attrs@.map_values(|a: XmlAttr| crate::xml::attr_view(a)),
            r@ == summary_after(av.take(i as int), cur@),
        decreases attrs@.len() - i,
    {
        proof {
            assert(av.take(i + 1).drop_last() == av.take(i as int));
        }
        match &attrs[i] {
            (k, Some(v)) => {
                if str_eq(k.as_str(), "summary") {
                    r = v.clone();
                }
            },
            _ => {},
        }
        i = i + 1;
    }
    assert(av.take(attrs@.len() as int) == av);
    r
}

/// Build the package a finished `<Package>` element describes.
fn finish_package(st: &ScanState, mirror: &str) -> (p: PackageMetadata)
    ensures
        is_eopkg_package(
            p,
            EopkgEntry {
                name: st.name@,
                version: eopkg_version(st.version@, st.release@),
                description: st.description@,
                download_url: eopkg_url(
                    mirror@,
                    st.name@,
                    eopkg_version(st.version@, st.release@),
                    st.uri@,
                    st.arch@,
                ),
            },
        ),
{
    let mut version = st.version.clone();
    if !st.release.as_str().is_empty() {
        push_str(&mut version, "-");
        push_str(&mut version, st.release.as_str());
    }
    let url = if str_starts_with(st.uri.as_str(), "http") {
        st.uri.clone()
    } else if !st.uri.as_str().is_empty() {
        let mut u = owned(mirror);
        push_str(&mut u, "/");
        push_str(&mut u, st.uri.as_str());
        u
    } else {
        let mut u = owned(mirror);
        push_str(&mut u, "/packages/");
        push_str(&mut u, st.name.as_str());
        push_str(&mut u, "/");
        push_str(&mut u, st.name.as_str());
        push_str(&mut u, "-");
        push_str(&mut u, version.as_str());
        push_str(&mut u, "-");
        push_str(&mut u, st.arch.as_str());
        push_str(&mut u, ".eopkg");
        u
    };
    PackageMetadata {
        name: st.name.clone(),
        version,
        description: st.description.clone(),
        download_url: url,
        sha256: None,
        installed_size: 0,
        depends: Vec::new(),
        provides: Vec::new(),
    }
}

/// The packages listed by an index already read as the events `events`
/// (see `eopkg_entries`).
pub fn eopkg_from_events(events: &Vec<XmlEvent>, mirror: &str) -> (r: Vec<PackageMetadata>)
    ensures
        eopkg_packages_match(r@, eopkg_entries(events_view(events@), mirror@)),
{
    let ghost es = events_view(events@);
    let mut st = ScanState {
        in_package: false,
        tag: String::new(),
        name: String::new(),
        version: String::new(),
        description: String::new(),
        release: String::new(),
        uri: String::new(),
        arch: String::new(),
    };
    let mut out: Vec<PackageMetadata> = Vec::new();
    let mut i: usize = 0;
    assert(es.take(0) =~= Seq::<XmlEventView>::empty());
    while i < events.len()
        invariant
            i <= events@.len(),
            es == events_view(events@),
            st.agrees(eopkg_scan(es.take(i as int), mirror@)),
            eopkg_packages_match(out@, eopkg_scan(es.take(i as int), mirror@).done),
        decreases events@.len() - i,
    {
        let ghost before = eopkg_scan(es.take(i as int), mirror@);
        proof {
            assert(es.take(i + 1).drop_last() == es.take(i as int));
            assert(es.take(i + 1).last() == events@[i as int]@);
        }
        match &events[i] {
            XmlEvent::Open(tag, attrs) => {
                if str_eq(tag.as_str(), "Package") {
                    st.in_package = true;
                    st.name = String::new();
                    st.version = String::new();
                    st.description = String::new();
                    st.release = String::new();
                    st.uri = String::new();
                    st.arch = String::new();
                } else if str_eq(tag.as_str(), "PackageURI") && st.in_package {
                    st.tag = owned("PackageURI");
                } else if str_eq(tag.as_str(), "Description") && st.in_package {
                    st.description = summary_of(attrs, &st.description);
                } else if st.in_package {
                    st.tag = tag.clone();
                }
            },
            XmlEvent::Text(text) => {
                if st.in_package {
                    if str_eq(st.tag.as_str(), "Name") {
                        st.name = text.clone();
                    } else if str_eq(st.tag.as_str(), "Version") {
                        st.version = text.clone();
                    } else if str_eq(st.tag.as_str(), "Release") {
                        st.release = text.clone();
                    } else if str_eq(st.tag.as_str(), "PackageURI") {
                        st.uri = text.clone();
                    } else if str_eq(st.tag.as_str(), "Architecture") {
                        st.arch = text.clone();
                    }
                }
            },
            XmlEvent::Close(tag) => {
                if str_eq(tag.as_str(), "Package") && st.in_package && !st.name.as_str().is_empty() {
                    let p = finish_package(&st, mirror);
                    out.push(p);
                    st.in_package = false;
                }
                st.tag = String::new();
            },
            XmlEvent::Other => {},
        }
        proof {
            let after = eopkg_scan(es.take(i + 1), mirror@);
            assert(after == eopkg_step(before, events@[i as int]@, mirror@));
        }
        i = i + 1;
    }
    proof {
        assert(es.take(events@.len() as int) == es);
    }
    out
}

/// The packages the eopkg index document `xml` lists, in document order, with
/// download URLs on `mirror`.
pub fn parse_eopkg_index(xml: &str, mirror: &str) -> (r: Vec<PackageMetadata>)
    ensures
        eopkg_packages_match(r@, eopkg_entries(xml_events(xml@), mirror@)),
{
    let events = read_xml_events(xml);
    eopkg_from_events(&events, mirror)
}

} // verus!
