//! ROS package discovery: crawling a package tree for `package.xml` files,
//! reading each package's name and generation out of them, collecting message
//! definition files, and deduplicating what several search paths found.
//!
//! Directory listings and file contents come in as plain values (a
//! [`DirTree`]), so every rule here is a pure function: the I/O layer walks
//! the real filesystem once and hands the picture over.

use vstd::prelude::*;
use vstd::utf8::encode_utf8;
use vstd::string::StringSliceAdditionalSpecFns;
use vstd::string::StringExecFns;
use vstd::slice::{slice_index_get, slice_subrange, slice_to_vec};
use crate::header::{bytes_eq, str_eq};

verus! {

/// The ROS generation a package belongs to, read from its build tool.
#[derive(Clone, Copy, Debug, PartialEq, Eq, Structural)]
pub enum RosVersion {
    ROS1,
    ROS2,
}

/// A discovered package: its declared name (from `package.xml`, not the
/// directory), the directory it lives in, and its detected generation.
#[derive(Debug)]
pub struct Package {
    pub name: String,
    pub path: String,
    pub version: Option<RosVersion>,
}

/// The mathematical value of a `Package`.
pub struct PackageModel {
    pub name: Seq<char>,
    pub path: Seq<char>,
    pub version: Option<RosVersion>,
}

impl View for Package {
    type V = PackageModel;

    open spec fn view(&self) -> PackageModel {
        PackageModel { name: self.name@, path: self.path@, version: self.version }
    }
}

impl PartialEq for Package {
    /// Two packages are the same package when name and generation agree; the
    /// path they were found under does not matter.
    fn eq(&self, other: &Self) -> (r: bool) {
        let vs = match (self.version, other.version) {
            (None, None) => true,
            (Some(a), Some(b)) => a == b,
            _ => false,
        };
        vs && str_eq(self.name.as_str(), other.name.as_str())
    }
}

impl vstd::std_specs::cmp::PartialEqSpecImpl for Package {
    open spec fn obeys_eq_spec() -> bool {
        true
    }

    open spec fn eq_spec(&self, other: &Self) -> bool {
        self.name@ == other.name@ && self.version == other.version
    }
}

/// Errors of the crawler: the recursion depth ran out (a symlink loop), or a
/// `package.xml` lacked its required `<name>` tag.
#[derive(Clone, Copy, Debug, PartialEq, Eq, Structural)]
pub enum CrawlError {
    DepthLimit,
    MissingName,
}

/// One directory of the package search tree, as the I/O layer found it:
/// whether a `CATKIN_IGNORE` marker file is present, the contents of a
/// `package.xml` if one is present, the names of the other regular files, and
/// the named subdirectories.
pub struct DirTree {
    pub catkin_ignore: bool,
    pub package_xml: Option<Vec<u8>>,
    pub files: Vec<String>,
    pub subdirs: Vec<(String, DirTree)>,
}

/// One search root: the path it was given under, and what is on disk there.
pub struct SearchRoot {
    pub path: String,
    pub tree: DirTree,
}

/// A child's path: the parent's path, a separator, the entry name.
pub open spec fn spec_join(prefix: Seq<char>, name: Seq<char>) -> Seq<char> {
    prefix + "/"@ + name
}

fn join_path(prefix: &str, name: &str) -> (r: String)
    ensures
        r@ == spec_join(prefix@, name@),
{
    let mut s = prefix.to_owned();
    s.append("/");
    s.append(name);
    proof {
        assert(s@ =~= spec_join(prefix@, name@));
    }
    s
}

/// The first occurrence of a byte, if any.
pub open spec fn find_byte(b: Seq<u8>, x: u8) -> Option<int>
    decreases b.len(),
{
    if b.len() == 0 {
        None
    } else if b[0] == x {
        Some(0int)
    } else {
        match find_byte(b.drop_first(), x) {
            None => None,
            Some(p) => Some(p + 1),
        }
    }
}

proof fn lemma_find_byte_at(b: Seq<u8>, x: u8, p: int)
    requires
        0 <= p < b.len(),
        b[p] == x,
        forall|j: int| 0 <= j < p ==> b[j] != x,
    ensures
        find_byte(b, x) == Some(p),
    decreases p,
{
    if p == 0 {
    } else {
        lemma_find_byte_at(b.drop_first(), x, p - 1);
    }
}

proof fn lemma_find_byte_none(b: Seq<u8>, x: u8)
    requires
        forall|j: int| 0 <= j < b.len() ==> b[j] != x,
    ensures
        find_byte(b, x) is None,
    decreases b.len(),
{
    if b.len() == 0 {
    } else {
        lemma_find_byte_none(b.drop_first(), x);
    }
}

/// Splitting at a separator: the pieces between separators, in order; `n`
/// separators give `n + 1` pieces, empty pieces included.
pub open spec fn spec_split_bytes(b: Seq<u8>, sep: u8) -> Seq<Seq<u8>>
    decreases b.len(),
    via spec_split_bytes_decreases
{
    match find_byte(b, sep) {
        None => seq![b],
        Some(p) => seq![b.take(p)] + spec_split_bytes(b.skip(p + 1), sep),
    }
}

proof fn lemma_find_byte_in_range(b: Seq<u8>, x: u8)
    ensures
        find_byte(b, x) matches Some(p) ==> 0 <= p < b.len(),
    decreases b.len(),
{
    if b.len() > 0 {
        lemma_find_byte_in_range(b.drop_first(), x);
    }
}

#[via_fn]
proof fn spec_split_bytes_decreases(b: Seq<u8>, sep: u8) {
    lemma_find_byte_in_range(b, sep);
}

/// Splits a package search path list at its separator byte (`:` on POSIX
/// systems, `;` on Windows); each piece is one search path.
pub fn split_search_paths(paths: &[u8], separator: u8) -> (r: Vec<Vec<u8>>)
    ensures
        r@.map_values(|v: Vec<u8>| v@) == spec_split_bytes(paths@, separator),
{
    let mut out: Vec<Vec<u8>> = Vec::new();
    let mut start: usize = 0;
    let mut i: usize = 0;
    proof {
        assert(paths@.skip(0) =~= paths@);
        assert(out@.map_values(|v: Vec<u8>| v@) + spec_split_bytes(paths@, separator) =~= spec_split_bytes(
            paths@,
            separator,
        ));
    }
    while i < paths.len()
        invariant
            start <= i <= paths@.len(),
            forall|j: int| start <= j < i ==> paths@[j] != separator,
            spec_split_bytes(paths@, separator) == out@.map_values(|v: Vec<u8>| v@) + spec_split_bytes(
                paths@.skip(start as int),
                separator,
            ),
        decreases paths@.len() - i,
    {
        if *slice_index_get(paths, i) == separator {
            let ghost pre = out@.map_values(|v: Vec<u8>| v@);
            let piece = slice_to_vec(slice_subrange(paths, start, i));
            proof {
                let rem = paths@.skip(start as int);
                lemma_find_byte_at(rem, separator, i - start);
                assert(rem.take(i - start) =~= paths@.subrange(start as int, i as int));
                assert(rem.skip(i - start + 1) =~= paths@.skip(i as int + 1));
            }
            out.push(piece);
            proof {
                assert(out@.map_values(|v: Vec<u8>| v@) =~= pre.push(
                    paths@.subrange(start as int, i as int),
                ));
                assert(pre.push(paths@.subrange(start as int, i as int)) =~= pre + seq![
                    paths@.subrange(start as int, i as int),
                ]);
            }
            start = i + 1;
        }
        i = i + 1;
    }
    let ghost pre = out@.map_values(|v: Vec<u8>| v@);
    let piece = slice_to_vec(slice_subrange(paths, start, paths.len()));
    proof {
        let rem = paths@.skip(start as int);
        lemma_find_byte_none(rem, separator);
        assert(rem =~= paths@.subrange(start as int, paths@.len() as int));
    }
    out.push(piece);
    proof {
        assert(out@.map_values(|v: Vec<u8>| v@) =~= pre + seq![paths@.skip(start as int)]);
        assert(paths@.subrange(start as int, paths@.len() as int) =~= paths@.skip(start as int));
    }
    out
}

// ---------------------------------------------------------------------------
// package.xml reading
// ---------------------------------------------------------------------------

/// One XML event, reduced to what the package rules look at: an element
/// opening or closing (by local name), character data, or anything else.
pub enum XmlToken {
    Start(String),
    End(String),
    Text(String),
    Other,
}

/// The mathematical value of an [`XmlToken`].
pub enum XmlTokenModel {
    Start(Seq<char>),
    End(Seq<char>),
    Text(Seq<char>),
    Other,
}

impl View for XmlToken {
    type V = XmlTokenModel;

    open spec fn view(&self) -> XmlTokenModel {
        match self {
            XmlToken::Start(s) => XmlTokenModel::Start(s@),
            XmlToken::End(s) => XmlTokenModel::End(s@),
            XmlToken::Text(s) => XmlTokenModel::Text(s@),
            XmlToken::Other => XmlTokenModel::Other,
        }
    }
}

/// What the XML reader makes of a byte buffer: its event stream, cut short at
/// the first parse error. A function of the bytes alone.
pub uninterp spec fn xml_tokens_of(bytes: Seq<u8>) -> Seq<XmlTokenModel>;

/// Relies on `xml::reader::EventReader`: the events parsed out of a byte
/// buffer (whitespace trimmed, comments ignored) depend on the bytes alone,
/// and the iterator ends after the first error.
#[verifier::external_body]
fn xml_tokens(bytes: &[u8]) -> (r: Vec<XmlToken>)
    ensures
        r@.map_values(|t: XmlToken| t@) == xml_tokens_of(bytes@),
{
    let mut config = xml::reader::ParserConfig::new();
    config.trim_whitespace = true;
    config.ignore_comments = true;
    let mut out = Vec::new();
    for e in xml::reader::EventReader::new_with_config(bytes, config) {
        out.push(match e {
            Ok(xml::reader::XmlEvent::StartElement { name, .. }) => XmlToken::Start(name.local_name),
            Ok(xml::reader::XmlEvent::EndElement { name }) => XmlToken::End(name.local_name),
            Ok(xml::reader::XmlEvent::Characters(s)) => XmlToken::Text(s),
            Ok(_) => XmlToken::Other,
            Err(_) => break,
        });
    }
    out
}

/// The reader state of the package.xml rules: whether we stand inside a
/// `<buildtool_depend>` or `<name>` element, and what has been read so far.
pub struct InfoState {
    pub in_build: bool,
    pub in_name: bool,
    pub version: Option<RosVersion>,
    pub name: Option<Seq<char>>,
}

pub open spec fn spec_info_init() -> InfoState {
    InfoState { in_build: false, in_name: false, version: None, name: None }
}

/// One token's effect. Build-tool text wins over name text; `catkin` marks
/// ROS1, `ament_cmake` ROS2; a later `<name>` overwrites an earlier one.
pub open spec fn spec_info_step(st: InfoState, t: XmlTokenModel) -> InfoState {
    match t {
        XmlTokenModel::Start(n) => if n == "buildtool_depend"@ {
            InfoState { in_build: true, ..st }
        } else if n == "name"@ {
            InfoState { in_name: true, ..st }
        } else {
            st
        },
        XmlTokenModel::End(n) => if n == "buildtool_depend"@ {
            InfoState { in_build: false, ..st }
        } else if n == "name"@ {
            InfoState { in_name: false, ..st }
        } else {
            st
        },
        XmlTokenModel::Text(d) => if st.in_build {
            if d == "catkin"@ {
                InfoState { version: Some(RosVersion::ROS1), ..st }
            } else if d == "ament_cmake"@ {
                InfoState { version: Some(RosVersion::ROS2), ..st }
            } else {
                st
            }
        } else if st.in_name {
            InfoState { name: Some(d), ..st }
        } else {
            st
        },
        XmlTokenModel::Other => st,
    }
}

pub open spec fn spec_info_fold(ts: Seq<XmlTokenModel>, st: InfoState) -> InfoState
    decreases ts.len(),
{
    if ts.len() == 0 {
        st
    } else {
        spec_info_fold(ts.drop_first(), spec_info_step(st, ts[0]))
    }
}

/// What a token stream says about a package: its generation (heuristic, may
/// stay unknown) and its declared name; no `<name>` tag means failure.
pub open spec fn spec_package_info(ts: Seq<XmlTokenModel>) -> Option<(Option<RosVersion>, Seq<char>)> {
    let st = spec_info_fold(ts, spec_info_init());
    match st.name {
        Some(n) => Some((st.version, n)),
        None => None,
    }
}

/// The package.xml reading rules on an already-parsed token stream.
pub fn package_info_from_tokens(tokens: &Vec<XmlToken>) -> (r: Result<(Option<RosVersion>, String), CrawlError>)
    ensures
        (r is Ok) == (spec_package_info(tokens@.map_values(|t: XmlToken| t@)) is Some),
        r matches Ok(p) ==> Some((p.0, p.1@)) == spec_package_info(tokens@.map_values(|t: XmlToken| t@)),
        r matches Err(e) ==> e == CrawlError::MissingName,
{
    let ghost ts = tokens@.map_values(|t: XmlToken| t@);
    let mut in_build: bool = false;
    let mut in_name: bool = false;
    let mut version: Option<RosVersion> = None;
    let mut name: Option<String> = None;
    let mut i: usize = 0;
    proof {
        assert(ts.skip(0) =~= ts);
    }
    while i < tokens.len()
        invariant
            i <= ts.len(),
            ts.len() == tokens@.len(),
            ts == tokens@.map_values(|t: XmlToken| t@),
            spec_info_fold(ts, spec_info_init()) == spec_info_fold(
                ts.skip(i as int),
                (InfoState {
                    in_build: in_build,
                    in_name: in_name,
                    version: version,
                    name: crate::header::opt_view(name),
                }),
            ),
        decreases ts.len() - i,
    {
        let ghost st_pre = InfoState {
            in_build: in_build,
            in_name: in_name,
            version: version,
            name: crate::header::opt_view(name),
        };
        proof {
            assert(ts.skip(i as int)[0] == ts[i as int]);
            assert(ts.skip(i as int).drop_first() =~= ts.skip(i as int + 1));
        }
        match &tokens[i] {
            XmlToken::Start(n) => {
                if str_eq(n.as_str(), "buildtool_depend") {
                    in_build = true;
                } else if str_eq(n.as_str(), "name") {
                    in_name = true;
                }
            },
            XmlToken::End(n) => {
                if str_eq(n.as_str(), "buildtool_depend") {
                    in_build = false;
                } else if str_eq(n.as_str(), "name") {
                    in_name = false;
                }
            },
            XmlToken::Text(d) => {
                if in_build {
                    if str_eq(d.as_str(), "catkin") {
                        version = Some(RosVersion::ROS1);
                    } else if str_eq(d.as_str(), "ament_cmake") {
                        version = Some(RosVersion::ROS2);
                    }
                } else if in_name {
                    name = Some(d.clone());
                }
            },
            XmlToken::Other => {},
        }
        i = i + 1;
    }
    proof {
        assert(ts.skip(ts.len() as int) =~= Seq::<XmlTokenModel>::empty());
    }
    match name {
        Some(n) => Ok((version, n)),
        None => Err(CrawlError::MissingName),
    }
}

/// Reads the name and generation out of one `package.xml`'s contents: the XML
/// parse is the reader crate's, the reading rules are proved above it.
pub fn parse_ros_package_info(content: &[u8]) -> (r: Result<(Option<RosVersion>, String), CrawlError>)
    ensures
        (r is Ok) == (spec_package_info(xml_tokens_of(content@)) is Some),
        r matches Ok(p) ==> Some((p.0, p.1@)) == spec_package_info(xml_tokens_of(content@)),
        r matches Err(e) ==> e == CrawlError::MissingName,
{
    let tokens = xml_tokens(content);
    package_info_from_tokens(&tokens)
}

// ---------------------------------------------------------------------------
// Crawling
// ---------------------------------------------------------------------------

/// The crawler refuses to descend further than this; reaching the limit is
/// taken as a symlink loop.
pub const MAX_RECURSION_DEPTH: u16 = 1000;

/// What one directory contributes. A `CATKIN_IGNORE` marker silences the
/// whole subtree. A directory with a `package.xml` is a package (if the file
/// yields a name; otherwise nothing) and its subdirectories are not entered.
/// Only a directory without one is searched further, one level of depth down.
pub open spec fn spec_packages_from_path(path: Seq<char>, dir: DirTree, depth: u16) -> Option<Seq<PackageModel>>
    decreases depth, 1int, 0int,
{
    if depth == 0 {
        None
    } else if dir.catkin_ignore {
        Some(Seq::<PackageModel>::empty())
    } else {
        match dir.package_xml {
            Some(content) => Some(
                match spec_package_info(xml_tokens_of(content@)) {
                    Some(info) => seq![PackageModel { name: info.1, path: path, version: info.0 }],
                    None => Seq::<PackageModel>::empty(),
                },
            ),
            None => spec_packages_from_subdirs(path, dir.subdirs@, 0, depth),
        }
    }
}

pub open spec fn spec_packages_from_subdirs(
    path: Seq<char>,
    subs: Seq<(String, DirTree)>,
    i: int,
    depth: u16,
) -> Option<Seq<PackageModel>>
    decreases depth, 0int, subs.len() - i,
{
    if depth == 0 {
        None
    } else if i < 0 || i >= subs.len() {
        Some(Seq::<PackageModel>::empty())
    } else {
        match spec_packages_from_path(spec_join(path, subs[i].0@), subs[i].1, (depth - 1) as u16) {
            None => None,
            Some(v) => match spec_packages_from_subdirs(path, subs, i + 1, depth) {
                None => None,
                Some(rest) => Some(v + rest),
            },
        }
    }
}

fn packages_from_path(path: &str, dir: &DirTree, depth: u16) -> (r: Result<Vec<Package>, CrawlError>)
    ensures
        (r is Ok) == (spec_packages_from_path(path@, *dir, depth) is Some),
        r matches Ok(v) ==> Some(v@.map_values(|p: Package| p@)) == spec_packages_from_path(path@, *dir, depth),
        r matches Err(e) ==> e == CrawlError::DepthLimit,
    decreases depth,
{
    if depth == 0 {
        return Err(CrawlError::DepthLimit);
    }
    if dir.catkin_ignore {
        let r: Vec<Package> = Vec::new();
        proof {
            assert(r@.map_values(|p: Package| p@) =~= Seq::<PackageModel>::empty());
        }
        return Ok(r);
    }
    match &dir.package_xml {
        Some(content) => {
            let mut found: Vec<Package> = Vec::new();
            match parse_ros_package_info(content.as_slice()) {
                Ok(info) => {
                    let (version, name) = info;
                    found.push(Package { name: name, path: path.to_owned(), version: version });
                    proof {
                        assert(found@.map_values(|p: Package| p@) =~= spec_packages_from_path(
                            path@,
                            *dir,
                            depth,
                        ).unwrap());
                    }
                },
                Err(_) => {
                    proof {
                        assert(found@.map_values(|p: Package| p@) =~= Seq::<PackageModel>::empty());
                    }
                },
            }
            Ok(found)
        },
        None => {
            let mut found: Vec<Package> = Vec::new();
            let mut i: usize = 0;
            while i < dir.subdirs.len()
                invariant
                    i <= dir.subdirs@.len(),
                    depth >= 1,
                    !dir.catkin_ignore,
                    dir.package_xml is None,
                    spec_packages_from_subdirs(path@, dir.subdirs@, 0, depth) == (match spec_packages_from_subdirs(
                        path@,
                        dir.subdirs@,
                        i as int,
                        depth,
                    ) {
                        None => None::<Seq<PackageModel>>,
                        Some(rest) => Some(found@.map_values(|p: Package| p@) + rest),
                    }),
                decreases dir.subdirs@.len() - i,
    {
                let ghost pre = found@.map_values(|p: Package| p@);
                let child_path = join_path(path, dir.subdirs[i].0.as_str());
                match packages_from_path(child_path.as_str(), &dir.subdirs[i].1, depth - 1) {
                    Err(e) => {
                        proof {
                            assert(spec_packages_from_subdirs(path@, dir.subdirs@, i as int, depth) is None);
                            assert(spec_packages_from_subdirs(path@, dir.subdirs@, 0, depth) is None);
                            assert(spec_packages_from_path(path@, *dir, depth) is None);
                        }
                        return Err(e);
                    },
                    Ok(mut v) => {
                        let ghost vm = v@.map_values(|p: Package| p@);
                        found.append(&mut v);
                        proof {
                            assert(found@.map_values(|p: Package| p@) =~= pre + vm);
                        }
                    },
                }
                i = i + 1;
            }
            proof {
                assert(spec_packages_from_subdirs(path@, dir.subdirs@, dir.subdirs@.len() as int, depth)
                    == Some(Seq::<PackageModel>::empty()));
                assert(found@.map_values(|p: Package| p@) + Seq::<PackageModel>::empty() =~= found@.map_values(
                    |p: Package| p@,
                ));
            }
            Ok(found)
        },
    }
}

/// What a whole crawl finds: each root's packages in root order; a root whose
/// walk fails (depth ran out) contributes nothing.
pub open spec fn spec_crawl(roots: Seq<SearchRoot>, i: int) -> Seq<PackageModel>
    decreases roots.len() - i,
{
    if i < 0 || i >= roots.len() {
        Seq::<PackageModel>::empty()
    } else {
        (match spec_packages_from_path(roots[i].path@, roots[i].tree, MAX_RECURSION_DEPTH) {
            None => Seq::<PackageModel>::empty(),
            Some(v) => v,
        }) + spec_crawl(roots, i + 1)
    }
}

/// Finds ROS packages under each search root.
pub fn crawl(search_paths: &Vec<SearchRoot>) -> (r: Vec<Package>)
    ensures
        r@.map_values(|p: Package| p@) == spec_crawl(search_paths@, 0),
{
    let mut packages: Vec<Package> = Vec::new();
    let mut i: usize = 0;
    while i < search_paths.len()
        invariant
            i <= search_paths@.len(),
            spec_crawl(search_paths@, 0) == packages@.map_values(|p: Package| p@) + spec_crawl(
                search_paths@,
                i as int,
            ),
        decreases search_paths@.len() - i,
    {
        let ghost pre = packages@.map_values(|p: Package| p@);
        let root = &search_paths[i];
        match packages_from_path(root.path.as_str(), &root.tree, MAX_RECURSION_DEPTH) {
            Ok(mut v) => {
                let ghost vm = v@.map_values(|p: Package| p@);
                packages.append(&mut v);
                proof {
                    assert(packages@.map_values(|p: Package| p@) =~= pre + vm);
                    assert(spec_crawl(search_paths@, 0) =~= packages@.map_values(|p: Package| p@) + spec_crawl(
                        search_paths@,
                        i as int + 1,
                    ));
                }
            },
            Err(_) => {
                proof {
                    assert(spec_crawl(search_paths@, 0) =~= packages@.map_values(|p: Package| p@) + spec_crawl(
                        search_paths@,
                        i as int + 1,
                    ));
                }
            },
        }
        i = i + 1;
    }
    proof {
        assert(spec_crawl(search_paths@, search_paths@.len() as int) =~= Seq::<PackageModel>::empty());
        assert(packages@.map_values(|p: Package| p@) + Seq::<PackageModel>::empty() =~= packages@.map_values(
            |p: Package| p@,
        ));
    }
    packages
}

// ---------------------------------------------------------------------------
// Message definition files
// ---------------------------------------------------------------------------

/// True when a file name carries the extension: a nonempty stem, a dot, the
/// extension at the end (compared byte for byte).
pub open spec fn spec_has_ext(name: Seq<char>, ext: Seq<char>) -> bool {
    let nb = encode_utf8(name);
    let eb = encode_utf8(ext);
    &&& nb.len() >= eb.len() + 2
    &&& nb[nb.len() - eb.len() - 1] == 46u8
    &&& nb.skip(nb.len() - eb.len()) == eb
}

fn has_extension(name: &str, ext: &str) -> (r: bool)
    ensures
        r == spec_has_ext(name@, ext@),
{
    let nb = name.as_bytes();
    let eb = ext.as_bytes();
    if nb.len() >= 2 && eb.len() <= nb.len() - 2 {
        let dot = nb.len() - eb.len() - 1;
        if *slice_index_get(nb, dot) == 46u8 {
            let tail = slice_subrange(nb, nb.len() - eb.len(), nb.len());
            proof {
                assert(tail@ =~= name.spec_bytes().skip(
                    name.spec_bytes().len() - ext.spec_bytes().len(),
                ));
            }
            bytes_eq(tail, eb)
        } else {
            false
        }
    } else {
        false
    }
}

pub open spec fn spec_msg_file_names(path: Seq<char>, files: Seq<String>, i: int, ext: Seq<char>) -> Seq<Seq<char>>
    decreases files.len() - i,
{
    if i < 0 || i >= files.len() {
        Seq::<Seq<char>>::empty()
    } else {
        (if spec_has_ext(files[i]@, ext) {
            seq![spec_join(path, files[i]@)]
        } else {
            Seq::<Seq<char>>::empty()
        }) + spec_msg_file_names(path, files, i + 1, ext)
    }
}

/// The files with one extension under a directory: this directory's matching
/// files first (in listing order), then each subdirectory's, recursively.
pub open spec fn spec_message_files(path: Seq<char>, dir: DirTree, ext: Seq<char>) -> Seq<Seq<char>>
    decreases dir, 1int, 0int,
{
    spec_msg_file_names(path, dir.files@, 0, ext) + spec_msg_subdir_files(path, dir.subdirs@, 0, ext)
}

pub open spec fn spec_msg_subdir_files(
    path: Seq<char>,
    subs: Seq<(String, DirTree)>,
    i: int,
    ext: Seq<char>,
) -> Seq<Seq<char>>
    decreases subs, 0int, subs.len() - i,
{
    if i < 0 || i >= subs.len() {
        Seq::<Seq<char>>::empty()
    } else {
        spec_message_files(spec_join(path, subs[i].0@), subs[i].1, ext) + spec_msg_subdir_files(path, subs, i + 1, ext)
    }
}

fn message_files_from_path(path: &str, dir: &DirTree, ext: &str) -> (r: Vec<String>)
    ensures
        r@.map_values(|s: String| s@) == spec_message_files(path@, *dir, ext@),
    decreases *dir,
{
    let mut out: Vec<String> = Vec::new();
    let mut i: usize = 0;
    while i < dir.files.len()
        invariant
            i <= dir.files@.len(),
            spec_msg_file_names(path@, dir.files@, 0, ext@) == out@.map_values(|s: String| s@) + spec_msg_file_names(
                path@,
                dir.files@,
                i as int,
                ext@,
            ),
        decreases dir.files@.len() - i,
    {
        let ghost pre = out@.map_values(|s: String| s@);
        if has_extension(dir.files[i].as_str(), ext) {
            out.push(join_path(path, dir.files[i].as_str()));
            proof {
                assert(out@.map_values(|s: String| s@) =~= pre + seq![spec_join(path@, dir.files@[i as int]@)]);
            }
        }
        i = i + 1;
    }
    let mut j: usize = 0;
    proof {
        assert(spec_msg_file_names(path@, dir.files@, dir.files@.len() as int, ext@) =~= Seq::<Seq<char>>::empty());
        assert(out@.map_values(|s: String| s@) + Seq::<Seq<char>>::empty() =~= out@.map_values(|s: String| s@));
    }
    while j < dir.subdirs.len()
        invariant
            j <= dir.subdirs@.len(),
            spec_message_files(path@, *dir, ext@) == out@.map_values(|s: String| s@) + spec_msg_subdir_files(
                path@,
                dir.subdirs@,
                j as int,
                ext@,
            ),
        decreases dir.subdirs@.len() - j,
    {
        let ghost pre = out@.map_values(|s: String| s@);
        let child_path = join_path(path, dir.subdirs[j].0.as_str());
        let mut v = message_files_from_path(child_path.as_str(), &dir.subdirs[j].1, ext);
        let ghost vm = v@.map_values(|s: String| s@);
        out.append(&mut v);
        proof {
            assert(out@.map_values(|s: String| s@) =~= pre + vm);
        }
        j = j + 1;
    }
    proof {
        assert(spec_msg_subdir_files(path@, dir.subdirs@, dir.subdirs@.len() as int, ext@) =~= Seq::<
            Seq<char>,
        >::empty());
        assert(out@.map_values(|s: String| s@) + Seq::<Seq<char>>::empty() =~= out@.map_values(|s: String| s@));
    }
    out
}

/// Collects a package's message definition files: every `.msg` file under its
/// directory, then every `.srv` file, then every `.action` file.
pub fn get_message_files(pkg: &Package, tree: &DirTree) -> (r: Vec<String>)
    ensures
        r@.map_values(|s: String| s@) == spec_message_files(pkg@.path, *tree, "msg"@) + spec_message_files(
            pkg@.path,
            *tree,
            "srv"@,
        ) + spec_message_files(pkg@.path, *tree, "action"@),
{
    let mut v = message_files_from_path(pkg.path.as_str(), tree, "msg");
    let mut v2 = message_files_from_path(pkg.path.as_str(), tree, "srv");
    let mut v3 = message_files_from_path(pkg.path.as_str(), tree, "action");
    let ghost m1 = v@.map_values(|s: String| s@);
    let ghost m2 = v2@.map_values(|s: String| s@);
    let ghost m3 = v3@.map_values(|s: String| s@);
    v.append(&mut v2);
    v.append(&mut v3);
    proof {
        assert(v@.map_values(|s: String| s@) =~= m1 + m2 + m3);
    }
    v
}

// ---------------------------------------------------------------------------
// Deduplication
// ---------------------------------------------------------------------------

/// The tag a package's generation contributes to its map key.
pub open spec fn spec_version_tag(v: Option<RosVersion>) -> Seq<char> {
    match v {
        Some(RosVersion::ROS1) => "1"@,
        Some(RosVersion::ROS2) => "2"@,
        None => "unknown"@,
    }
}

/// The key a package is stored under: its name, an underscore, its tag.
pub open spec fn spec_map_key(p: PackageModel) -> Seq<char> {
    p.name + "_"@ + spec_version_tag(p.version)
}

fn package_name_fmt(pkg: &Package) -> (r: String)
    ensures
        r@ == spec_map_key(pkg@),
{
    let mut s = pkg.name.clone();
    s.append("_");
    match pkg.version {
        Some(RosVersion::ROS1) => s.append("1"),
        Some(RosVersion::ROS2) => s.append("2"),
        None => s.append("unknown"),
    }
    proof {
        assert(s@ =~= spec_map_key(pkg@));
    }
    s
}

/// The value stored under a key, searching front to back (keys stay unique,
/// so at most one entry matches).
pub open spec fn spec_assoc_get(m: Seq<(Seq<char>, PackageModel)>, k: Seq<char>) -> Option<PackageModel>
    decreases m.len(),
{
    if m.len() == 0 {
        None
    } else if m[0].0 == k {
        Some(m[0].1)
    } else {
        spec_assoc_get(m.drop_first(), k)
    }
}

/// Stores a value: a present key keeps its position with the new value, a new
/// key goes to the back.
pub open spec fn spec_assoc_put(
    m: Seq<(Seq<char>, PackageModel)>,
    k: Seq<char>,
    v: PackageModel,
) -> Seq<(Seq<char>, PackageModel)>
    decreases m.len(),
{
    if m.len() == 0 {
        seq![(k, v)]
    } else if m[0].0 == k {
        seq![(k, v)] + m.drop_first()
    } else {
        seq![m[0]] + spec_assoc_put(m.drop_first(), k, v)
    }
}

/// The same package: name and generation agree (the comparison `Package`'s
/// `==` makes; paths are ignored).
pub open spec fn spec_same_package(a: PackageModel, b: PackageModel) -> bool {
    a.name == b.name && a.version == b.version
}

/// One package's effect on the map: a duplicate of an entry looked up under
/// the bare package name is dropped (the first find wins); anything else is
/// stored under its name-and-tag key, displacing an equal key's value.
pub open spec fn spec_dedup_step(m: Seq<(Seq<char>, PackageModel)>, p: PackageModel) -> Seq<(Seq<char>, PackageModel)> {
    match spec_assoc_get(m, p.name) {
        Some(dup) => if spec_same_package(p, dup) {
            m
        } else {
            spec_assoc_put(m, spec_map_key(p), p)
        },
        None => spec_assoc_put(m, spec_map_key(p), p),
    }
}

pub open spec fn spec_dedup_fold(
    ps: Seq<PackageModel>,
    m: Seq<(Seq<char>, PackageModel)>,
) -> Seq<(Seq<char>, PackageModel)>
    decreases ps.len(),
{
    if ps.len() == 0 {
        m
    } else {
        spec_dedup_fold(ps.drop_first(), spec_dedup_step(m, ps[0]))
    }
}

/// What deduplication returns: the values of the map the fold built, in the
/// order their keys first appeared.
pub open spec fn spec_dedup(ps: Seq<PackageModel>) -> Seq<PackageModel> {
    spec_dedup_fold(ps, Seq::<(Seq<char>, PackageModel)>::empty()).map_values(|e: (Seq<char>, PackageModel)| e.1)
}

pub open spec fn map_model(m: Seq<(String, Package)>) -> Seq<(Seq<char>, PackageModel)> {
    m.map_values(|e: (String, Package)| (e.0@, e.1@))
}

proof fn lemma_assoc_get_at(m: Seq<(Seq<char>, PackageModel)>, k: Seq<char>, i: int)
    requires
        0 <= i < m.len(),
        m[i].0 == k,
        forall|j: int| 0 <= j < i ==> m[j].0 != k,
    ensures
        spec_assoc_get(m, k) == Some(m[i].1),
    decreases i,
{
    if i == 0 {
    } else {
        lemma_assoc_get_at(m.drop_first(), k, i - 1);
    }
}

proof fn lemma_assoc_get_none(m: Seq<(Seq<char>, PackageModel)>, k: Seq<char>)
    requires
        forall|j: int| 0 <= j < m.len() ==> m[j].0 != k,
    ensures
        spec_assoc_get(m, k) is None,
    decreases m.len(),
{
    if m.len() == 0 {
    } else {
        lemma_assoc_get_none(m.drop_first(), k);
    }
}

proof fn lemma_assoc_put_at(m: Seq<(Seq<char>, PackageModel)>, k: Seq<char>, v: PackageModel, i: int)
    requires
        0 <= i < m.len(),
        m[i].0 == k,
        forall|j: int| 0 <= j < i ==> m[j].0 != k,
    ensures
        spec_assoc_put(m, k, v) == m.update(i, (k, v)),
    decreases i,
{
    if i == 0 {
        assert(seq![(k, v)] + m.drop_first() =~= m.update(0, (k, v)));
    } else {
        lemma_assoc_put_at(m.drop_first(), k, v, i - 1);
        assert(seq![m[0]] + m.drop_first().update(i - 1, (k, v)) =~= m.update(i, (k, v)));
    }
}

proof fn lemma_assoc_put_none(m: Seq<(Seq<char>, PackageModel)>, k: Seq<char>, v: PackageModel)
    requires
        forall|j: int| 0 <= j < m.len() ==> m[j].0 != k,
    ensures
        spec_assoc_put(m, k, v) == m.push((k, v)),
    decreases m.len(),
{
    if m.len() == 0 {
        assert(seq![(k, v)] =~= m.push((k, v)));
    } else {
        lemma_assoc_put_none(m.drop_first(), k, v);
        assert(seq![m[0]] + m.drop_first().push((k, v)) =~= m.push((k, v)));
    }
}

fn assoc_find(map: &Vec<(String, Package)>, k: &str) -> (r: Option<usize>)
    ensures
        match r {
            Some(i) => i < map@.len() && map@[i as int].0@ == k@ && (forall|j: int|
                0 <= j < i ==> map@[j].0@ != k@) && spec_assoc_get(map_model(map@), k@) == Some(map@[i as int].1@),
            None => (forall|j: int| 0 <= j < map@.len() ==> map@[j].0@ != k@) && spec_assoc_get(
                map_model(map@),
                k@,
            ) is None,
        },
{
    let mut i: usize = 0;
    while i < map.len()
        invariant
            i <= map@.len(),
            forall|j: int| 0 <= j < i ==> map@[j].0@ != k@,
        decreases map@.len() - i,
    {
        if str_eq(map[i].0.as_str(), k) {
            proof {
                lemma_assoc_get_at(map_model(map@), k@, i as int);
            }
            return Some(i);
        }
        i = i + 1;
    }
    proof {
        lemma_assoc_get_none(map_model(map@), k@);
    }
    None
}

fn assoc_insert(map: &mut Vec<(String, Package)>, key: String, p: Package)
    ensures
        map_model(final(map)@) == spec_assoc_put(map_model(old(map)@), key@, p@),
{
    let ghost mpre = map_model(map@);
    match assoc_find(map, key.as_str()) {
        Some(j) => {
            proof {
                lemma_assoc_put_at(mpre, key@, p@, j as int);
            }
            map.remove(j);
            map.insert(j, (key, p));
            proof {
                assert(map_model(map@) =~= mpre.update(j as int, (key@, p@)));
            }
        },
        None => {
            proof {
                assert forall|j: int| 0 <= j < mpre.len() implies mpre[j].0 != key@ by {
                    assert(mpre[j] == (map@[j].0@, map@[j].1@));
                }
                lemma_assoc_put_none(mpre, key@, p@);
            }
            map.push((key, p));
            proof {
                assert(map_model(map@) =~= mpre.push((key@, p@)));
            }
        },
    }
}

/// Collapses duplicates found under several search paths. Packages are stored
/// under their name-and-tag key; a package equal (name and generation) to one
/// already found under its bare name is discarded, keeping the first.
pub fn deduplicate_packages(packages: Vec<Package>) -> (r: Vec<Package>)
    ensures
        r@.map_values(|p: Package| p@) == spec_dedup(packages@.map_values(|p: Package| p@)),
{
    let ghost ps0 = packages@.map_values(|p: Package| p@);
    let mut map: Vec<(String, Package)> = Vec::new();
    let mut rest = packages;
    proof {
        assert(map_model(map@) =~= Seq::<(Seq<char>, PackageModel)>::empty());
    }
    while rest.len() > 0
        invariant
            spec_dedup_fold(ps0, Seq::<(Seq<char>, PackageModel)>::empty()) == spec_dedup_fold(
                rest@.map_values(|p: Package| p@),
                map_model(map@),
            ),
        decreases rest@.len(),
    {
        let ghost mpre = map_model(map@);
        let ghost rpre = rest@.map_values(|p: Package| p@);
        let p = rest.remove(0);
        proof {
            assert(rest@.map_values(|q: Package| q@) =~= rpre.drop_first());
            assert(rpre[0] == p@);
        }
        let mut keep: bool = false;
        match assoc_find(&map, p.name.as_str()) {
            Some(i) => {
                if p == map[i].1 {
                    keep = true;
                }
            },
            None => {},
        }
        if !keep {
            let key = package_name_fmt(&p);
            assoc_insert(&mut map, key, p);
            proof {
                assert(map_model(map@) == spec_dedup_step(mpre, rpre[0]));
            }
        } else {
            proof {
                assert(map_model(map@) == spec_dedup_step(mpre, rpre[0]));
            }
        }
    }
    let ghost mfin = map_model(map@);
    proof {
        assert(rest@.map_values(|p: Package| p@) =~= Seq::<PackageModel>::empty());
        assert(spec_dedup(ps0) == mfin.map_values(|e: (Seq<char>, PackageModel)| e.1));
    }
    let mut out: Vec<Package> = Vec::new();
    while map.len() > 0
        invariant
            map_model(map@) == mfin.skip(mfin.len() - map@.len()),
            map@.len() <= mfin.len(),
            out@.map_values(|p: Package| p@) == mfin.map_values(|e: (Seq<char>, PackageModel)| e.1).take(
                mfin.len() - map@.len(),
            ),
        decreases map@.len(),
    {
        let ghost mcur = map_model(map@);
        let ghost opre = out@.map_values(|p: Package| p@);
        let e = map.remove(0);
        out.push(e.1);
        proof {
            assert(map_model(map@) =~= mcur.drop_first());
            assert(mcur.drop_first() =~= mfin.skip(mfin.len() - map@.len()));
            assert(out@.map_values(|p: Package| p@) =~= opre.push(mcur[0].1));
            assert(opre.push(mcur[0].1) =~= mfin.map_values(|e2: (Seq<char>, PackageModel)| e2.1).take(
                mfin.len() - map@.len(),
            ));
        }
    }
    proof {
        assert(map_model(map@) =~= Seq::<(Seq<char>, PackageModel)>::empty());
        assert(out@.map_values(|p: Package| p@) =~= mfin.map_values(|e: (Seq<char>, PackageModel)| e.1));
    }
    out
}

} // verus!
