//! The two-phase compile protocol: the source fingerprint keys the recorded
//! dependency file, the object fingerprint (over the prerequisites as well)
//! keys the object and the captured output streams.

use vstd::prelude::*;
use vstd::utf8::encode_utf8;
use crate::compiler::{ArgsModel, CompilerArgs, opt_string};
use crate::compression::opt_bytes;
use crate::provider::Category;
use crate::dep_parser::{DepParser, parsed_deps, parsed_target, rendered, strings_view};
use crate::hash::{blake3_hex, is_hex_digit, Hasher};
use crate::text::{chars_of, replace_all, replace_bytes, replaced};

verus! {

/// The UTF-8 bytes of the arguments, joined without separator.
pub open spec fn joined_utf8(args: Seq<Seq<char>>) -> Seq<u8>
    decreases args.len(),
{
    if args.len() == 0 {
        Seq::empty()
    } else {
        joined_utf8(args.drop_last()) + encode_utf8(args.last())
    }
}

/// The concatenation of the parts.
pub open spec fn flatten_bytes(parts: Seq<Seq<u8>>) -> Seq<u8>
    decreases parts.len(),
{
    if parts.len() == 0 {
        Seq::empty()
    } else {
        flatten_bytes(parts.drop_last()) + parts.last()
    }
}

/// What the source fingerprint covers: the normalized arguments, then the source.
pub open spec fn source_fingerprint_input(args: Seq<Seq<char>>, source: Seq<u8>) -> Seq<u8> {
    joined_utf8(args) + source
}

/// What the object fingerprint covers: the normalized arguments, the source,
/// then the content of each prerequisite in order.
pub open spec fn object_fingerprint_input(args: Seq<Seq<char>>, source: Seq<u8>, deps: Seq<Seq<u8>>) -> Seq<u8> {
    joined_utf8(args) + source + flatten_bytes(deps)
}

/// The placeholder that stands for the base directory in cached entries.
pub open spec fn base_dir_token() -> Seq<u8> {
    encode_utf8(seq!['%', '%', '%', 'B', 'A', 'S', 'E', '_', 'D', 'I', 'R', '%', '%', '%'])
}

pub open spec fn base_dir_bytes(base_dir: Option<String>) -> Seq<u8> {
    match base_dir {
        Some(b) => encode_utf8(b@),
        None => Seq::empty(),
    }
}

/// A path as written in a dependency file, with each `\ ` turned into a space.
pub open spec fn unescaped(path: Seq<char>) -> Seq<char> {
    replaced(path, seq!['\\', ' '], seq![' '])
}

/// The UTF-8 bytes of `s`.
pub fn bytes_of(s: &str) -> (r: Vec<u8>)
    ensures
        r@ == encode_utf8(s@),
{
    let b = s.as_bytes();
    let mut out: Vec<u8> = Vec::new();
    let mut i: usize = 0;
    while i < b.len()
        invariant
            i <= b@.len(),
            b@ == encode_utf8(s@),
            out@ == b@.subrange(0, i as int),
        decreases b@.len() - i,
    {
        out.push(b[i]);
        i = i + 1;
        proof {
            assert(b@.subrange(0, i as int) =~= b@.subrange(0, i - 1).push(b@[i - 1]));
        }
    }
    proof {
        assert(b@.subrange(0, b@.len() as int) =~= b@);
    }
    out
}

fn token_bytes() -> (r: Vec<u8>)
    ensures
        r@ == base_dir_token(),
{
    let s = crate::text::string_of(&vec!['%', '%', '%', 'B', 'A', 'S', 'E', '_', 'D', 'I', 'R', '%', '%', '%']);
    assert(s@ =~= seq!['%', '%', '%', 'B', 'A', 'S', 'E', '_', 'D', 'I', 'R', '%', '%', '%']);
    bytes_of(s.as_str())
}

fn base_bytes(base_dir: &Option<String>) -> (r: Vec<u8>)
    ensures
        r@ == base_dir_bytes(*base_dir),
{
    match base_dir {
        Some(b) => bytes_of(b.as_str()),
        None => Vec::new(),
    }
}

/// Puts the base directory back where a cached entry holds the placeholder.
pub fn restore_base_dir(data: &Vec<u8>, base_dir: &Option<String>) -> (r: Vec<u8>)
    ensures
        base_dir is None ==> r@ == data@,
        base_dir is Some ==> r@ == replaced(data@, base_dir_token(), base_dir_bytes(*base_dir)),
{
    match base_dir {
        Some(_) => replace_bytes(data, &token_bytes(), &base_bytes(base_dir)),
        None => {
            let mut out: Vec<u8> = Vec::new();
            let mut copy = data.clone();
            proof {
                assert(copy@ =~= data@);
            }
            out.append(&mut copy);
            out
        },
    }
}

/// Replaces the base directory by the placeholder before an entry is cached.
pub fn tokenize_base_dir(data: &Vec<u8>, base_dir: &Option<String>) -> (r: Vec<u8>)
    ensures
        r@ == replaced(data@, base_dir_bytes(*base_dir), base_dir_token()),
{
    replace_bytes(data, &base_bytes(base_dir), &token_bytes())
}

impl CompilerArgs {
    /// Whether the invocation takes part in caching: the source, the object
    /// and the dependency file are all known.
    pub fn participates(&self) -> (r: bool)
        ensures
            r == (self.dep_file is Some && self.out_file is Some && self.source_file is Some),
    {
        self.dep_file.is_some() && self.out_file.is_some() && self.source_file.is_some()
    }

    /// Feeds the normalized arguments, joined, to the hasher.
    pub fn update_hash(&self, hasher: &mut Hasher)
        ensures
            final(hasher)@ == old(hasher)@ + joined_utf8(strings_view(self.processed_args@)),
    {
        let mut i: usize = 0;
        let ghost sv = strings_view(self.processed_args@);
        let ghost start = hasher@;
        while i < self.processed_args.len()
            invariant
                i <= self.processed_args@.len(),
                sv == strings_view(self.processed_args@),
                hasher@ == start + joined_utf8(sv.subrange(0, i as int)),
            decreases self.processed_args@.len() - i,
        {
            hasher.update(self.processed_args[i].as_str().as_bytes());
            proof {
                let next = sv.subrange(0, i + 1);
                assert(next.drop_last() =~= sv.subrange(0, i as int));
                assert(next.last() == self.processed_args@[i as int]@);
                assert(hasher@ =~= start + joined_utf8(next));
            }
            i = i + 1;
        }
        proof {
            assert(sv.subrange(0, sv.len() as int) =~= sv);
        }
    }
}

/// The source fingerprint: the `dep` entry's key.
pub fn source_fingerprint(args: &CompilerArgs, source: &Vec<u8>) -> (r: String)
    ensures
        r@ == blake3_hex(source_fingerprint_input(args.model().args, source@)),
        r@.len() == 64,
        forall|i: int| 0 <= i < r@.len() ==> is_hex_digit(#[trigger] r@[i]),
{
    let mut h = Hasher::new();
    args.update_hash(&mut h);
    h.update(source.as_slice());
    proof {
        assert(h@ =~= source_fingerprint_input(args.model().args, source@));
    }
    h.finalize()
}

/// The object fingerprint: the key of the `obj`, `stdout` and `stderr` entries.
/// `deps` holds the content of each prerequisite, in the dependency file's order.
pub fn object_fingerprint(args: &CompilerArgs, source: &Vec<u8>, deps: &Vec<Vec<u8>>) -> (r: String)
    ensures
        r@ == blake3_hex(object_fingerprint_input(args.model().args, source@, deps@.map_values(|d: Vec<u8>| d@))),
        r@.len() == 64,
        forall|i: int| 0 <= i < r@.len() ==> is_hex_digit(#[trigger] r@[i]),
{
    let mut h = Hasher::new();
    args.update_hash(&mut h);
    h.update(source.as_slice());
    let ghost dv = deps@.map_values(|d: Vec<u8>| d@);
    let ghost start = h@;
    let mut i: usize = 0;
    while i < deps.len()
        invariant
            i <= deps@.len(),
            dv == deps@.map_values(|d: Vec<u8>| d@),
            h@ == start + flatten_bytes(dv.subrange(0, i as int)),
        decreases deps@.len() - i,
    {
        h.update(deps[i].as_slice());
        proof {
            let next = dv.subrange(0, i + 1);
            assert(next.drop_last() =~= dv.subrange(0, i as int));
            assert(h@ =~= start + flatten_bytes(next));
        }
        i = i + 1;
    }
    proof {
        assert(dv.subrange(0, dv.len() as int) =~= dv);
        assert(h@ =~= object_fingerprint_input(args.model().args, source@, dv));
    }
    h.finalize()
}

/// Two runs whose arguments, source and prerequisites are equal have equal
/// source and object fingerprints.
pub proof fn lemma_fingerprints_stable(
    args1: Seq<Seq<char>>, args2: Seq<Seq<char>>,
    src1: Seq<u8>, src2: Seq<u8>,
    deps1: Seq<Seq<u8>>, deps2: Seq<Seq<u8>>,
)
    requires
        args1 == args2,
        src1 == src2,
        deps1 == deps2,
    ensures
        blake3_hex(source_fingerprint_input(args1, src1)) == blake3_hex(source_fingerprint_input(args2, src2)),
        blake3_hex(object_fingerprint_input(args1, src1, deps1)) == blake3_hex(object_fingerprint_input(args2, src2, deps2)),
{
}

impl DepParser {
    /// The files whose contents the object fingerprint covers: each
    /// prerequisite in order, with `\ ` read as a space.
    pub fn files_to_hash(&self) -> (r: Vec<String>)
        ensures
            strings_view(r@) == strings_view(self.deps@).map_values(|d: Seq<char>| unescaped(d)),
    {
        let esc: Vec<char> = vec!['\\', ' '];
        let sp: Vec<char> = vec![' '];
        proof {
            assert(esc@ =~= seq!['\\', ' ']);
            assert(sp@ =~= seq![' ']);
        }
        let mut out: Vec<String> = Vec::new();
        let mut i: usize = 0;
        while i < self.deps.len()
            invariant
                i <= self.deps@.len(),
                esc@ == seq!['\\', ' '],
                sp@ == seq![' '],
                out@.len() == i,
                forall|k: int| 0 <= k < i ==> #[trigger] out@[k]@ == unescaped(self.deps@[k]@),
            decreases self.deps@.len() - i,
        {
            let d = chars_of(self.deps[i].as_str());
            out.push(crate::text::string_of(&replace_all(&d, &esc, &sp)));
            i = i + 1;
        }
        proof {
            assert(strings_view(out@) =~= strings_view(self.deps@).map_values(|d: Seq<char>| unescaped(d)));
        }
        out
    }

    /// The `dep` entry for this file: its rendered form as UTF-8, with the base
    /// directory replaced by the placeholder.
    pub fn cache_entry(&self, base_dir: &Option<String>) -> (r: Vec<u8>)
        ensures
            r@ == replaced(encode_utf8(rendered(self.target@, strings_view(self.deps@))), base_dir_bytes(*base_dir), base_dir_token()),
    {
        let s = self.get_dep_file_string();
        let b = bytes_of(s.as_str());
        tokenize_base_dir(&b, base_dir)
    }
}

/// A captured output stream to cache: `None` when it is empty, else the bytes
/// with the base directory replaced by the placeholder.
pub fn stream_entry(data: &Vec<u8>, base_dir: &Option<String>) -> (r: Option<Vec<u8>>)
    ensures
        data@.len() == 0 ==> r is None,
        data@.len() > 0 ==> (r matches Some(v) && v@ == replaced(data@, base_dir_bytes(*base_dir), base_dir_token())),
{
    if data.len() == 0 {
        None
    } else {
        Some(tokenize_base_dir(data, base_dir))
    }
}

/// The directory part of a path: what precedes its last `/` (the root itself
/// where that is the first character), or nothing where it has no `/`.
pub open spec fn parent_dir(p: Seq<char>) -> Seq<char>
    decreases p.len(),
{
    if p.len() == 0 {
        Seq::empty()
    } else if p.last() == '/' {
        if p.len() == 1 {
            p
        } else {
            p.drop_last()
        }
    } else {
        parent_dir(p.drop_last())
    }
}

fn parent_of(p: &Vec<char>) -> (r: Vec<char>)
    ensures
        r@ == parent_dir(p@),
{
    let mut n: usize = p.len();
    proof {
        assert(p@.subrange(0, p@.len() as int) =~= p@);
    }
    while n > 0 && p[n - 1] != '/'
        invariant
            n <= p@.len(),
            parent_dir(p@) == parent_dir(p@.subrange(0, n as int)),
        decreases n,
    {
        proof {
            assert(p@.subrange(0, n as int).drop_last() =~= p@.subrange(0, n - 1));
        }
        n = n - 1;
    }
    proof {
        assert(p@.subrange(0, p@.len() as int) =~= p@);
    }
    let mut out: Vec<char> = Vec::new();
    if n == 0 {
        proof {
            assert(p@.subrange(0, 0) =~= Seq::<char>::empty());
        }
        return out;
    }
    let keep: usize = if n == 1 { 1 } else { n - 1 };
    let mut i: usize = 0;
    while i < keep
        invariant
            keep <= n <= p@.len(),
            i <= keep,
            out@ == p@.subrange(0, i as int),
        decreases keep - i,
    {
        out.push(p[i]);
        i = i + 1;
        proof {
            assert(p@.subrange(0, i as int) =~= p@.subrange(0, i - 1).push(p@[i - 1]));
        }
    }
    proof {
        let q = p@.subrange(0, n as int);
        if n == 1 {
            assert(q =~= p@.subrange(0, 1));
        } else {
            assert(q.drop_last() =~= p@.subrange(0, keep as int));
        }
    }
    out
}

pub open spec fn obj_folder_tag() -> Seq<char> {
    seq!['{', 'o', 'b', 'j', '_', 'f', 'o', 'l', 'd', 'e', 'r', '}']
}

pub open spec fn obj_path_tag() -> Seq<char> {
    seq!['{', 'o', 'b', 'j', '_', 'p', 'a', 't', 'h', '}']
}

/// A log-file path template with `{obj_folder}` replaced by the object file's
/// directory, then `{obj_path}` by the object file's path.
pub fn resolve_tmpl(tmpl: &str, out_file: &str) -> (r: String)
    ensures
        r@ == replaced(replaced(tmpl@, obj_folder_tag(), parent_dir(out_file@)), obj_path_tag(), out_file@),
{
    let t = chars_of(tmpl);
    let o = chars_of(out_file);
    let folder: Vec<char> = vec!['{', 'o', 'b', 'j', '_', 'f', 'o', 'l', 'd', 'e', 'r', '}'];
    let path: Vec<char> = vec!['{', 'o', 'b', 'j', '_', 'p', 'a', 't', 'h', '}'];
    proof {
        assert(folder@ =~= obj_folder_tag());
        assert(path@ =~= obj_path_tag());
    }
    let step = replace_all(&t, &folder, &parent_of(&o));
    crate::text::string_of(&replace_all(&step, &path, &o))
}

/// The handler for executables that are not cached: it never hits and keys nothing.
#[derive(Debug)]
pub struct NoCacheHandler;

impl NoCacheHandler {
    pub fn cache_lookup(&self, _args: &Vec<String>) -> (r: Option<usize>)
        ensures
            r is None,
    {
        None
    }

    pub fn get_stdout_key(&self) -> (r: Option<String>)
        ensures
            r is None,
    {
        None
    }

    pub fn get_stderr_key(&self) -> (r: Option<String>)
        ensures
            r is None,
    {
        None
    }
}

/// The text whose UTF-8 encoding is `b`, or `None` where `b` is not valid UTF-8.
pub uninterp spec fn decoded_utf8(b: Seq<u8>) -> Option<Seq<char>>;

/// Relies on `String::from_utf8`: the text that `b` encodes, or an error where
/// `b` is not valid UTF-8.
#[verifier::external_body]
fn utf8_text(b: &Vec<u8>) -> (r: Option<String>)
    ensures
        opt_string(r) == decoded_utf8(b@),
        r matches Some(s) ==> encode_utf8(s@) == b@,
{
    String::from_utf8(b.clone()).ok()
}

/// Where a cached compilation stands.
#[derive(Clone, Copy, PartialEq, Eq, Structural, Debug)]
pub enum Phase {
    Start,
    ReadingSource,
    GettingDep,
    WritingDep,
    ReadingLookupPrereqs,
    GettingObj,
    WritingObj,
    GettingStdout,
    ReplayingStdout,
    GettingStderr,
    ReplayingStderr,
    Compiling,
    ReadingDepFile,
    ReadingPushPrereqs,
    SettingDep,
    ReadingObject,
    SettingObj,
    SettingStdout,
    SettingStderr,
    Done,
}

/// Why a compilation cannot go on.
#[derive(Clone, Copy, PartialEq, Eq, Structural, Debug)]
pub enum Failure {
    UnreadableSource,
    UnreadableDepFile,
    UnreadablePrerequisite,
    UnreadableObject,
    UnexpectedEvent,
}

/// What the caller reports back after doing an action.
#[derive(Debug)]
pub enum Event {
    Start,
    /// The source file's bytes, or `None` where it cannot be read.
    Source(Option<Vec<u8>>),
    /// The result of a tiered lookup: the payload and the provider it came from.
    Got(Option<(Vec<u8>, usize)>),
    /// The prerequisites' contents in order, or `None` where one cannot be read.
    Prerequisites(Option<Vec<Vec<u8>>>),
    /// Whether the compiler succeeded, and its standard output and error.
    Compiled(bool, Vec<u8>, Vec<u8>),
    /// The dependency file the compiler wrote.
    DepFile(Option<String>),
    /// The object file the compiler wrote.
    Object(Option<Vec<u8>>),
    /// A write or replay is done.
    Written,
}

/// What the caller is to do next.
#[derive(Debug)]
pub enum Action {
    /// Run the compiler and cache nothing.
    Passthrough,
    ReadSource(String),
    /// A tiered lookup, pinned to a provider where one is given.
    Get(Category, String, Option<usize>),
    WriteFile(String, Vec<u8>),
    ReadPrerequisites(Vec<String>),
    RunCompiler,
    /// The compiler failed: exit with its status; nothing is cached.
    CompilerFailed,
    ReadDepFile(String),
    ReadObject(String),
    /// A tiered write.
    Store(Category, String, Vec<u8>),
    /// Write bytes to standard output (`true`) or standard error.
    Replay(Vec<u8>, bool),
    Fail(Failure),
    Done,
}

pub enum Ev {
    Start,
    Source(Option<Seq<u8>>),
    Got(Option<(Seq<u8>, usize)>),
    Prerequisites(Option<Seq<Seq<u8>>>),
    Compiled(bool, Seq<u8>, Seq<u8>),
    DepFile(Option<Seq<char>>),
    Object(Option<Seq<u8>>),
    Written,
}

pub enum Act {
    Passthrough,
    ReadSource(Seq<char>),
    Get(Category, Seq<char>, Option<usize>),
    WriteFile(Seq<char>, Seq<u8>),
    ReadPrerequisites(Seq<Seq<char>>),
    RunCompiler,
    CompilerFailed,
    ReadDepFile(Seq<char>),
    ReadObject(Seq<char>),
    Store(Category, Seq<char>, Seq<u8>),
    Replay(Seq<u8>, bool),
    Fail(Failure),
    Done,
}

pub open spec fn bytes_list_view(v: Seq<Vec<u8>>) -> Seq<Seq<u8>> {
    v.map_values(|d: Vec<u8>| d@)
}

pub open spec fn event_view(e: Event) -> Ev {
    match e {
        Event::Start => Ev::Start,
        Event::Source(o) => Ev::Source(opt_bytes(o)),
        Event::Got(o) => Ev::Got(match o {
            Some((d, p)) => Some((d@, p)),
            None => None,
        }),
        Event::Prerequisites(o) => Ev::Prerequisites(match o {
            Some(v) => Some(bytes_list_view(v@)),
            None => None,
        }),
        Event::Compiled(ok, a, b) => Ev::Compiled(ok, a@, b@),
        Event::DepFile(o) => Ev::DepFile(opt_string(o)),
        Event::Object(o) => Ev::Object(opt_bytes(o)),
        Event::Written => Ev::Written,
    }
}

pub open spec fn action_view(a: Action) -> Act {
    match a {
        Action::Passthrough => Act::Passthrough,
        Action::ReadSource(p) => Act::ReadSource(p@),
        Action::Get(c, k, pin) => Act::Get(c, k@, pin),
        Action::WriteFile(p, d) => Act::WriteFile(p@, d@),
        Action::ReadPrerequisites(v) => Act::ReadPrerequisites(strings_view(v@)),
        Action::RunCompiler => Act::RunCompiler,
        Action::CompilerFailed => Act::CompilerFailed,
        Action::ReadDepFile(p) => Act::ReadDepFile(p@),
        Action::ReadObject(p) => Act::ReadObject(p@),
        Action::Store(c, k, d) => Act::Store(c, k@, d@),
        Action::Replay(d, o) => Act::Replay(d@, o),
        Action::Fail(f) => Act::Fail(f),
        Action::Done => Act::Done,
    }
}

/// The abstract state of a compilation.
pub struct SessionModel {
    pub phase: Phase,
    pub args: ArgsModel,
    pub source: Seq<u8>,
    pub source_hash: Option<Seq<char>>,
    pub total_hash: Option<Seq<char>>,
    pub hit: Option<usize>,
    /// The restored dependency file being written, or the `dep` entry being cached.
    pub pending: Seq<u8>,
    pub stdout: Seq<u8>,
    pub stderr: Seq<u8>,
}

pub open spec fn key_of(o: Option<Seq<char>>) -> Seq<char> {
    match o {
        Some(k) => k,
        None => Seq::empty(),
    }
}

/// A cached entry with the placeholder turned back into the base directory.
pub open spec fn restored(data: Seq<u8>, base_dir: Option<String>) -> Seq<u8> {
    match base_dir {
        Some(b) => replaced(data, base_dir_token(), encode_utf8(b@)),
        None => data,
    }
}

/// Bytes to cache, with the base directory turned into the placeholder.
pub open spec fn tokenized(data: Seq<u8>, base_dir: Option<String>) -> Seq<u8> {
    replaced(data, base_dir_bytes(base_dir), base_dir_token())
}

/// The files whose contents the object fingerprint covers, for a dependency file.
pub open spec fn prerequisite_files(text: Seq<char>) -> Seq<Seq<char>> {
    parsed_deps(text).map_values(|d: Seq<char>| unescaped(d))
}

/// The `dep` entry cached for a dependency file.
pub open spec fn dep_entry_of(text: Seq<char>, base_dir: Option<String>) -> Seq<u8> {
    tokenized(encode_utf8(rendered(parsed_target(text), parsed_deps(text))), base_dir)
}

pub open spec fn source_key(m: SessionModel, source: Seq<u8>) -> Seq<char> {
    blake3_hex(source_fingerprint_input(m.args.args, source))
}

pub open spec fn object_key(m: SessionModel, contents: Seq<Seq<u8>>) -> Seq<char> {
    blake3_hex(object_fingerprint_input(m.args.args, m.source, contents))
}

pub open spec fn to(m: SessionModel, phase: Phase, a: Act) -> (SessionModel, Act) {
    (SessionModel { phase, ..m }, a)
}

pub open spec fn unexpected(m: SessionModel) -> (SessionModel, Act) {
    to(m, Phase::Done, Act::Fail(Failure::UnexpectedEvent))
}

/// After the object is cached: the standard output, then the standard error,
/// each only where it is not empty.
pub open spec fn after_obj_set(m: SessionModel, base_dir: Option<String>) -> (SessionModel, Act) {
    if m.stdout.len() > 0 {
        to(m, Phase::SettingStdout, Act::Store(Category::Stdout, key_of(m.total_hash), tokenized(m.stdout, base_dir)))
    } else {
        after_stdout_set(m, base_dir)
    }
}

pub open spec fn after_stdout_set(m: SessionModel, base_dir: Option<String>) -> (SessionModel, Act) {
    if m.stderr.len() > 0 {
        to(m, Phase::SettingStderr, Act::Store(Category::Stderr, key_of(m.total_hash), tokenized(m.stderr, base_dir)))
    } else {
        to(m, Phase::Done, Act::Done)
    }
}

/// The two-phase protocol, one event at a time.
/// Lookup: read the source; look up `dep` under the source fingerprint; on a
/// hit write the restored dependency file, read the prerequisites, look up
/// `obj` under the object fingerprint; on a hit write the object and replay
/// `stdout` and `stderr` pinned to the object's provider. Any miss (or an
/// unreadable prerequisite, or a dependency entry that is not text) runs the
/// compiler. Push, after a successful run: where the object fingerprint is not
/// known yet, read the produced dependency file and its prerequisites and cache
/// the `dep` entry; then cache the object and the non-empty output streams.
/// Without a source, object and dependency path: run the compiler, cache nothing.
pub open spec fn protocol_step(m: SessionModel, ev: Ev, base_dir: Option<String>) -> (SessionModel, Act) {
    match m.phase {
        Phase::Start => match ev {
            Ev::Start => match (m.args.src, m.args.out, m.args.dep) {
                (Some(src), Some(_), Some(_)) => to(m, Phase::ReadingSource, Act::ReadSource(src)),
                _ => to(m, Phase::Done, Act::Passthrough),
            },
            _ => unexpected(m),
        },
        Phase::ReadingSource => match ev {
            Ev::Source(Some(b)) => {
                let k = source_key(m, b);
                (SessionModel { phase: Phase::GettingDep, source: b, source_hash: Some(k), ..m },
                    Act::Get(Category::Dep, k, None))
            },
            Ev::Source(None) => to(m, Phase::Done, Act::Fail(Failure::UnreadableSource)),
            _ => unexpected(m),
        },
        Phase::GettingDep => match ev {
            Ev::Got(Some((d, _))) => {
                let r = restored(d, base_dir);
                (SessionModel { phase: Phase::WritingDep, pending: r, ..m }, Act::WriteFile(key_of(m.args.dep), r))
            },
            Ev::Got(None) => to(m, Phase::Compiling, Act::RunCompiler),
            _ => unexpected(m),
        },
        Phase::WritingDep => match ev {
            Ev::Written => match decoded_utf8(m.pending) {
                Some(t) => to(m, Phase::ReadingLookupPrereqs, Act::ReadPrerequisites(prerequisite_files(t))),
                None => to(m, Phase::Compiling, Act::RunCompiler),
            },
            _ => unexpected(m),
        },
        Phase::ReadingLookupPrereqs => match ev {
            Ev::Prerequisites(Some(c)) => {
                let k = object_key(m, c);
                (SessionModel { phase: Phase::GettingObj, total_hash: Some(k), ..m }, Act::Get(Category::Obj, k, None))
            },
            Ev::Prerequisites(None) => to(m, Phase::Compiling, Act::RunCompiler),
            _ => unexpected(m),
        },
        Phase::GettingObj => match ev {
            Ev::Got(Some((o, p))) => (SessionModel { phase: Phase::WritingObj, hit: Some(p), ..m },
                Act::WriteFile(key_of(m.args.out), o)),
            Ev::Got(None) => to(m, Phase::Compiling, Act::RunCompiler),
            _ => unexpected(m),
        },
        Phase::WritingObj => match ev {
            Ev::Written => to(m, Phase::GettingStdout, Act::Get(Category::Stdout, key_of(m.total_hash), m.hit)),
            _ => unexpected(m),
        },
        Phase::GettingStdout => match ev {
            Ev::Got(Some((d, _))) => to(m, Phase::ReplayingStdout, Act::Replay(restored(d, base_dir), true)),
            Ev::Got(None) => to(m, Phase::GettingStderr, Act::Get(Category::Stderr, key_of(m.total_hash), m.hit)),
            _ => unexpected(m),
        },
        Phase::ReplayingStdout => match ev {
            Ev::Written => to(m, Phase::GettingStderr, Act::Get(Category::Stderr, key_of(m.total_hash), m.hit)),
            _ => unexpected(m),
        },
        Phase::GettingStderr => match ev {
            Ev::Got(Some((d, _))) => to(m, Phase::ReplayingStderr, Act::Replay(restored(d, base_dir), false)),
            Ev::Got(None) => to(m, Phase::Done, Act::Done),
            _ => unexpected(m),
        },
        Phase::ReplayingStderr => match ev {
            Ev::Written => to(m, Phase::Done, Act::Done),
            _ => unexpected(m),
        },
        Phase::Compiling => match ev {
            Ev::Compiled(ok, out, err) => {
                if !ok {
                    to(m, Phase::Done, Act::CompilerFailed)
                } else if m.total_hash is None {
                    (SessionModel { phase: Phase::ReadingDepFile, stdout: out, stderr: err, ..m }, Act::ReadDepFile(key_of(m.args.dep)))
                } else {
                    (SessionModel { phase: Phase::ReadingObject, stdout: out, stderr: err, ..m }, Act::ReadObject(key_of(m.args.out)))
                }
            },
            _ => unexpected(m),
        },
        Phase::ReadingDepFile => match ev {
            Ev::DepFile(Some(t)) => (SessionModel { phase: Phase::ReadingPushPrereqs, pending: dep_entry_of(t, base_dir), ..m },
                Act::ReadPrerequisites(prerequisite_files(t))),
            Ev::DepFile(None) => to(m, Phase::Done, Act::Fail(Failure::UnreadableDepFile)),
            _ => unexpected(m),
        },
        Phase::ReadingPushPrereqs => match ev {
            Ev::Prerequisites(Some(c)) => (SessionModel { phase: Phase::SettingDep, total_hash: Some(object_key(m, c)), ..m },
                Act::Store(Category::Dep, key_of(m.source_hash), m.pending)),
            Ev::Prerequisites(None) => to(m, Phase::Done, Act::Fail(Failure::UnreadablePrerequisite)),
            _ => unexpected(m),
        },
        Phase::SettingDep => match ev {
            Ev::Written => to(m, Phase::ReadingObject, Act::ReadObject(key_of(m.args.out))),
            _ => unexpected(m),
        },
        Phase::ReadingObject => match ev {
            Ev::Object(Some(b)) => to(m, Phase::SettingObj, Act::Store(Category::Obj, key_of(m.total_hash), b)),
            Ev::Object(None) => to(m, Phase::Done, Act::Fail(Failure::UnreadableObject)),
            _ => unexpected(m),
        },
        Phase::SettingObj => match ev {
            Ev::Written => after_obj_set(m, base_dir),
            _ => unexpected(m),
        },
        Phase::SettingStdout => match ev {
            Ev::Written => after_stdout_set(m, base_dir),
            _ => unexpected(m),
        },
        Phase::SettingStderr => match ev {
            Ev::Written => to(m, Phase::Done, Act::Done),
            _ => unexpected(m),
        },
        Phase::Done => unexpected(m),
    }
}

/// One cached compilation, driven one event at a time by `step`.
#[derive(Debug)]
pub struct Session {
    pub args: CompilerArgs,
    pub phase: Phase,
    pub source: Vec<u8>,
    pub source_hash: Option<String>,
    pub total_hash: Option<String>,
    pub hit: Option<usize>,
    pub pending: Vec<u8>,
    pub stdout: Vec<u8>,
    pub stderr: Vec<u8>,
}

fn copy_string(o: &Option<String>) -> (r: String)
    ensures
        r@ == key_of(opt_string(*o)),
{
    match o {
        Some(s) => s.clone(),
        None => String::new(),
    }
}

impl Session {
    pub open spec fn model(&self) -> SessionModel {
        SessionModel {
            phase: self.phase,
            args: self.args.model(),
            source: self.source@,
            source_hash: opt_string(self.source_hash),
            total_hash: opt_string(self.total_hash),
            hit: self.hit,
            pending: self.pending@,
            stdout: self.stdout@,
            stderr: self.stderr@,
        }
    }

    pub fn new(args: CompilerArgs) -> (r: Session)
        ensures
            r.args == args,
            r.phase == Phase::Start,
            r.source_hash is None,
            r.total_hash is None,
            r.hit is None,
    {
        Session {
            args,
            phase: Phase::Start,
            source: Vec::new(),
            source_hash: None,
            total_hash: None,
            hit: None,
            pending: Vec::new(),
            stdout: Vec::new(),
            stderr: Vec::new(),
        }
    }

    /// The key of the captured standard output: the object fingerprint.
    pub fn get_stdout_key(&self) -> (r: Option<String>)
        ensures
            r == self.total_hash,
    {
        match &self.total_hash {
            Some(h) => Some(h.clone()),
            None => None,
        }
    }

    /// The key of the captured standard error: the object fingerprint.
    pub fn get_stderr_key(&self) -> (r: Option<String>)
        ensures
            r == self.total_hash,
    {
        match &self.total_hash {
            Some(h) => Some(h.clone()),
            None => None,
        }
    }

    fn finish(&mut self, phase: Phase, a: Action) -> (r: Action)
        ensures
            final(self).model() == (SessionModel { phase, ..old(self).model() }),
            r == a,
    {
        self.phase = phase;
        a
    }

    fn set_obj_done(&mut self, base_dir: &Option<String>) -> (a: Action)
        ensures
            (final(self).model(), action_view(a)) == after_obj_set(old(self).model(), *base_dir),
    {
        if self.stdout.len() > 0 {
            let d = tokenize_base_dir(&self.stdout, base_dir);
            let k = copy_string(&self.total_hash);
            self.finish(Phase::SettingStdout, Action::Store(Category::Stdout, k, d))
        } else {
            self.set_stdout_done(base_dir)
        }
    }

    fn set_stdout_done(&mut self, base_dir: &Option<String>) -> (a: Action)
        ensures
            (final(self).model(), action_view(a)) == after_stdout_set(old(self).model(), *base_dir),
    {
        if self.stderr.len() > 0 {
            let d = tokenize_base_dir(&self.stderr, base_dir);
            let k = copy_string(&self.total_hash);
            self.finish(Phase::SettingStderr, Action::Store(Category::Stderr, k, d))
        } else {
            self.finish(Phase::Done, Action::Done)
        }
    }

    fn prerequisites_of(text: &String) -> (r: Vec<String>)
        ensures
            strings_view(r@) == prerequisite_files(text@),
    {
        DepParser::new(text.as_str()).files_to_hash()
    }

    /// Takes the event that answers the last action and says what to do next.
    pub fn step(&mut self, ev: Event, base_dir: &Option<String>) -> (a: Action)
        ensures
            (final(self).model(), action_view(a)) == protocol_step(old(self).model(), event_view(ev), *base_dir),
    {
        match self.phase {
            Phase::Start => match ev {
                Event::Start => {
                    if self.args.participates() {
                        let src = copy_string(&self.args.source_file);
                        self.finish(Phase::ReadingSource, Action::ReadSource(src))
                    } else {
                        self.finish(Phase::Done, Action::Passthrough)
                    }
                },
                _ => self.finish(Phase::Done, Action::Fail(Failure::UnexpectedEvent)),
            },
            Phase::ReadingSource => match ev {
                Event::Source(Some(b)) => {
                    let k = source_fingerprint(&self.args, &b);
                    self.source = b;
                    self.source_hash = Some(k.clone());
                    self.finish(Phase::GettingDep, Action::Get(Category::Dep, k, None))
                },
                Event::Source(None) => self.finish(Phase::Done, Action::Fail(Failure::UnreadableSource)),
                _ => self.finish(Phase::Done, Action::Fail(Failure::UnexpectedEvent)),
            },
            Phase::GettingDep => match ev {
                Event::Got(Some((d, _))) => {
                    let r = restore_base_dir(&d, base_dir);
                    let r2 = r.clone();
                    proof {
                        assert(r2@ =~= r@);
                    }
                    self.pending = r;
                    let p = copy_string(&self.args.dep_file);
                    self.finish(Phase::WritingDep, Action::WriteFile(p, r2))
                },
                Event::Got(None) => self.finish(Phase::Compiling, Action::RunCompiler),
                _ => self.finish(Phase::Done, Action::Fail(Failure::UnexpectedEvent)),
            },
            Phase::WritingDep => match ev {
                Event::Written => match utf8_text(&self.pending) {
                    Some(t) => {
                        let files = Self::prerequisites_of(&t);
                        self.finish(Phase::ReadingLookupPrereqs, Action::ReadPrerequisites(files))
                    },
                    None => self.finish(Phase::Compiling, Action::RunCompiler),
                },
                _ => self.finish(Phase::Done, Action::Fail(Failure::UnexpectedEvent)),
            },
            Phase::ReadingLookupPrereqs => match ev {
                Event::Prerequisites(Some(c)) => {
                    let k = object_fingerprint(&self.args, &self.source, &c);
                    self.total_hash = Some(k.clone());
                    self.finish(Phase::GettingObj, Action::Get(Category::Obj, k, None))
                },
                Event::Prerequisites(None) => self.finish(Phase::Compiling, Action::RunCompiler),
                _ => self.finish(Phase::Done, Action::Fail(Failure::UnexpectedEvent)),
            },
            Phase::GettingObj => match ev {
                Event::Got(Some((o, p))) => {
                    self.hit = Some(p);
                    let out = copy_string(&self.args.out_file);
                    self.finish(Phase::WritingObj, Action::WriteFile(out, o))
                },
                Event::Got(None) => self.finish(Phase::Compiling, Action::RunCompiler),
                _ => self.finish(Phase::Done, Action::Fail(Failure::UnexpectedEvent)),
            },
            Phase::WritingObj => match ev {
                Event::Written => {
                    let k = copy_string(&self.total_hash);
                    let pin = self.hit;
                    self.finish(Phase::GettingStdout, Action::Get(Category::Stdout, k, pin))
                },
                _ => self.finish(Phase::Done, Action::Fail(Failure::UnexpectedEvent)),
            },
            Phase::GettingStdout => match ev {
                Event::Got(Some((d, _))) => {
                    let r = restore_base_dir(&d, base_dir);
                    self.finish(Phase::ReplayingStdout, Action::Replay(r, true))
                },
                Event::Got(None) => {
                    let k = copy_string(&self.total_hash);
                    let pin = self.hit;
                    self.finish(Phase::GettingStderr, Action::Get(Category::Stderr, k, pin))
                },
                _ => self.finish(Phase::Done, Action::Fail(Failure::UnexpectedEvent)),
            },
            Phase::ReplayingStdout => match ev {
                Event::Written => {
                    let k = copy_string(&self.total_hash);
                    let pin = self.hit;
                    self.finish(Phase::GettingStderr, Action::Get(Category::Stderr, k, pin))
                },
                _ => self.finish(Phase::Done, Action::Fail(Failure::UnexpectedEvent)),
            },
            Phase::GettingStderr => match ev {
                Event::Got(Some((d, _))) => {
                    let r = restore_base_dir(&d, base_dir);
                    self.finish(Phase::ReplayingStderr, Action::Replay(r, false))
                },
                Event::Got(None) => self.finish(Phase::Done, Action::Done),
                _ => self.finish(Phase::Done, Action::Fail(Failure::UnexpectedEvent)),
            },
            Phase::ReplayingStderr => match ev {
                Event::Written => self.finish(Phase::Done, Action::Done),
                _ => self.finish(Phase::Done, Action::Fail(Failure::UnexpectedEvent)),
            },
            Phase::Compiling => match ev {
                Event::Compiled(ok, out, err) => {
                    if !ok {
                        self.finish(Phase::Done, Action::CompilerFailed)
                    } else if self.total_hash.is_none() {
                        self.stdout = out;
                        self.stderr = err;
                        let p = copy_string(&self.args.dep_file);
                        self.finish(Phase::ReadingDepFile, Action::ReadDepFile(p))
                    } else {
                        self.stdout = out;
                        self.stderr = err;
                        let p = copy_string(&self.args.out_file);
                        self.finish(Phase::ReadingObject, Action::ReadObject(p))
                    }
                },
                _ => self.finish(Phase::Done, Action::Fail(Failure::UnexpectedEvent)),
            },
            Phase::ReadingDepFile => match ev {
                Event::DepFile(Some(t)) => {
                    let dep = DepParser::new(t.as_str());
                    self.pending = dep.cache_entry(base_dir);
                    let files = dep.files_to_hash();
                    self.finish(Phase::ReadingPushPrereqs, Action::ReadPrerequisites(files))
                },
                Event::DepFile(None) => self.finish(Phase::Done, Action::Fail(Failure::UnreadableDepFile)),
                _ => self.finish(Phase::Done, Action::Fail(Failure::UnexpectedEvent)),
            },
            Phase::ReadingPushPrereqs => match ev {
                Event::Prerequisites(Some(c)) => {
                    let k = object_fingerprint(&self.args, &self.source, &c);
                    self.total_hash = Some(k);
                    let sk = copy_string(&self.source_hash);
                    let entry = self.pending.clone();
                    proof {
                        assert(entry@ =~= self.pending@);
                    }
                    self.finish(Phase::SettingDep, Action::Store(Category::Dep, sk, entry))
                },
                Event::Prerequisites(None) => self.finish(Phase::Done, Action::Fail(Failure::UnreadablePrerequisite)),
                _ => self.finish(Phase::Done, Action::Fail(Failure::UnexpectedEvent)),
            },
            Phase::SettingDep => match ev {
                Event::Written => {
                    let p = copy_string(&self.args.out_file);
                    self.finish(Phase::ReadingObject, Action::ReadObject(p))
                },
                _ => self.finish(Phase::Done, Action::Fail(Failure::UnexpectedEvent)),
            },
            Phase::ReadingObject => match ev {
                Event::Object(Some(b)) => {
                    let k = copy_string(&self.total_hash);
                    self.finish(Phase::SettingObj, Action::Store(Category::Obj, k, b))
                },
                Event::Object(None) => self.finish(Phase::Done, Action::Fail(Failure::UnreadableObject)),
                _ => self.finish(Phase::Done, Action::Fail(Failure::UnexpectedEvent)),
            },
            Phase::SettingObj => match ev {
                Event::Written => self.set_obj_done(base_dir),
                _ => self.finish(Phase::Done, Action::Fail(Failure::UnexpectedEvent)),
            },
            Phase::SettingStdout => match ev {
                Event::Written => self.set_stdout_done(base_dir),
                _ => self.finish(Phase::Done, Action::Fail(Failure::UnexpectedEvent)),
            },
            Phase::SettingStderr => match ev {
                Event::Written => self.finish(Phase::Done, Action::Done),
                _ => self.finish(Phase::Done, Action::Fail(Failure::UnexpectedEvent)),
            },
            Phase::Done => self.finish(Phase::Done, Action::Fail(Failure::UnexpectedEvent)),
        }
    }
}

/// An empty source file is still fingerprinted, over the arguments and the
/// empty byte string, and its `dep` entry looked up under that fingerprint.
pub proof fn lemma_empty_source_is_fingerprinted(m: SessionModel, base_dir: Option<String>)
    requires
        m.phase == Phase::ReadingSource,
    ensures
        protocol_step(m, Ev::Source(Some(Seq::empty())), base_dir).1
            == Act::Get(Category::Dep, blake3_hex(joined_utf8(m.args.args)), None),
        protocol_step(m, Ev::Source(Some(Seq::empty())), base_dir).0.phase == Phase::GettingDep,
{
    assert(source_fingerprint_input(m.args.args, Seq::empty()) =~= joined_utf8(m.args.args));
}

/// A compiler run that fails ends the compilation with nothing cached.
pub proof fn lemma_failed_compile_caches_nothing(m: SessionModel, out: Seq<u8>, err: Seq<u8>, base_dir: Option<String>)
    requires
        m.phase == Phase::Compiling,
    ensures
        protocol_step(m, Ev::Compiled(false, out, err), base_dir) == to(m, Phase::Done, Act::CompilerFailed),
        protocol_step(protocol_step(m, Ev::Compiled(false, out, err), base_dir).0, Ev::Written, base_dir).1
            == Act::Fail(Failure::UnexpectedEvent),
{
}

} // verus!
