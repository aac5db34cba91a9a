//! Compiler families and the parsing of a compiler's argument vector:
//! response-file expansion, extraction of the source, object and dependency
//! paths, and base-directory stripping.

use vstd::prelude::*;
use crate::text::{chars_of, replace_all, replaced, string_of};
use crate::dep_parser::strings_view;

verus! {

/// What a compiler family recognises: response-file and dependency-file prefixes.
pub trait CompilerTrait {
    spec fn name_spec(&self) -> Seq<char>;

    spec fn resp_spec(&self) -> Seq<Seq<char>>;

    spec fn dep_spec(&self) -> Seq<Seq<char>>;

    fn get_name(&self) -> (r: String)
        ensures
            r@ == self.name_spec(),
    ;

    fn get_resp_file_prefix(&self) -> (r: Vec<String>)
        ensures
            strings_view(r@) == self.resp_spec(),
    ;

    fn get_dep_file_prefix(&self) -> (r: Vec<String>)
        ensures
            strings_view(r@) == self.dep_spec(),
    ;
}

/// The GCC family: `@file` response files, `-MF` dependency files.
#[derive(Debug)]
pub struct Gcc;

/// The Tasking family: `--option-file=` and `-f` response files, `--dep-file=` dependency files.
#[derive(Debug)]
pub struct Tasking;

impl CompilerTrait for Gcc {
    open spec fn name_spec(&self) -> Seq<char> {
        seq!['g', 'c', 'c']
    }

    open spec fn resp_spec(&self) -> Seq<Seq<char>> {
        seq![seq!['@']]
    }

    open spec fn dep_spec(&self) -> Seq<Seq<char>> {
        seq![seq!['-', 'M', 'F']]
    }

    fn get_name(&self) -> (r: String) {
        string_of(&vec!['g', 'c', 'c'])
    }

    fn get_resp_file_prefix(&self) -> (r: Vec<String>) {
        let a = string_of(&vec!['@']);
        assert(a@ =~= seq!['@']);
        let r = vec![a];
        assert(strings_view(r@) =~= seq![a@]);
        r
    }

    fn get_dep_file_prefix(&self) -> (r: Vec<String>) {
        let a = string_of(&vec!['-', 'M', 'F']);
        assert(a@ =~= seq!['-', 'M', 'F']);
        let r = vec![a];
        assert(strings_view(r@) =~= seq![a@]);
        r
    }
}

impl CompilerTrait for Tasking {
    open spec fn name_spec(&self) -> Seq<char> {
        seq!['t', 'a', 's', 'k', 'i', 'n', 'g']
    }

    open spec fn resp_spec(&self) -> Seq<Seq<char>> {
        seq![
            seq!['-', '-', 'o', 'p', 't', 'i', 'o', 'n', '-', 'f', 'i', 'l', 'e', '='],
            seq!['-', 'f'],
        ]
    }

    open spec fn dep_spec(&self) -> Seq<Seq<char>> {
        seq![seq!['-', '-', 'd', 'e', 'p', '-', 'f', 'i', 'l', 'e', '=']]
    }

    fn get_name(&self) -> (r: String) {
        string_of(&vec!['t', 'a', 's', 'k', 'i', 'n', 'g'])
    }

    fn get_resp_file_prefix(&self) -> (r: Vec<String>) {
        let a = string_of(&vec!['-', '-', 'o', 'p', 't', 'i', 'o', 'n', '-', 'f', 'i', 'l', 'e', '=']);
        assert(a@ =~= seq!['-', '-', 'o', 'p', 't', 'i', 'o', 'n', '-', 'f', 'i', 'l', 'e', '=']);
        let b = string_of(&vec!['-', 'f']);
        assert(b@ =~= seq!['-', 'f']);
        let r = vec![a, b];
        assert(strings_view(r@) =~= seq![a@, b@]);
        r
    }

    fn get_dep_file_prefix(&self) -> (r: Vec<String>) {
        let a = string_of(&vec!['-', '-', 'd', 'e', 'p', '-', 'f', 'i', 'l', 'e', '=']);
        assert(a@ =~= seq!['-', '-', 'd', 'e', 'p', '-', 'f', 'i', 'l', 'e', '=']);
        let r = vec![a];
        assert(strings_view(r@) =~= seq![a@]);
        r
    }
}

/// Whether `p` is a prefix of `s`.
pub open spec fn prefix_of(p: Seq<char>, s: Seq<char>) -> bool {
    p.len() <= s.len() && s.subrange(0, p.len() as int) == p
}

/// The first prefix of the list that `s` starts with.
pub open spec fn first_prefix(s: Seq<char>, ps: Seq<Seq<char>>) -> Option<Seq<char>>
    decreases ps.len(),
{
    if ps.len() == 0 {
        None
    } else if prefix_of(ps[0], s) {
        Some(ps[0])
    } else {
        first_prefix(s, ps.drop_first())
    }
}

/// The universal two-character flags that take a path: `-I`, `-c`, `-o`.
pub open spec fn universal_flag(s: Seq<char>) -> Option<Seq<char>> {
    if s.len() >= 2 && s[0] == '-' && (s[1] == 'I' || s[1] == 'c' || s[1] == 'o') {
        Some(s.subrange(0, 2))
    } else {
        None
    }
}

/// Whether a path is absolute (it starts at the root).
pub open spec fn is_absolute(p: Seq<char>) -> bool {
    p.len() > 0 && p[0] == '/'
}

/// The path of `path` relative to `base`, as `pathdiff::diff_paths` computes it
/// with Unix path syntax.
pub uninterp spec fn path_diff(path: Seq<char>, base: Seq<char>) -> Option<Seq<char>>;

pub open spec fn opt_string(o: Option<String>) -> Option<Seq<char>> {
    match o {
        Some(s) => Some(s@),
        None => None,
    }
}

/// Relies on `pathdiff::diff_paths`: the relative path from `base` to `path`, if any.
#[verifier::external_body]
fn relative_path(path: &str, base: &str) -> (r: Option<String>)
    ensures
        opt_string(r) == path_diff(path@, base@),
{
    match pathdiff::diff_paths(path, base) {
        Some(p) => p.into_os_string().into_string().ok(),
        None => None,
    }
}

/// An absolute path is made relative to the working directory `cwd`, with
/// forward slashes; a relative one, or one that cannot be made relative, stays.
pub open spec fn normalized(path: Seq<char>, cwd: Seq<char>) -> Seq<char> {
    if is_absolute(path) {
        match path_diff(path, cwd) {
            Some(r) => replaced(r, seq!['\\'], seq!['/']),
            None => path,
        }
    } else {
        path
    }
}

/// The parsed form of an argument vector.
pub struct ArgsModel {
    pub args: Seq<Seq<char>>,
    pub dep: Option<Seq<char>>,
    pub out: Option<Seq<char>>,
    pub src: Option<Seq<char>>,
}

pub open spec fn empty_model() -> ArgsModel {
    ArgsModel { args: Seq::empty(), dep: None, out: None, src: None }
}

/// Why an argument vector cannot be parsed.
pub enum ParseFailure {
    /// A prefix stands alone as the last argument.
    MissingArgument,
    /// A response file that is not among those supplied.
    MissingResponseFile(Seq<char>),
    /// Response files nest deeper than there are files: they refer to each other in a cycle.
    ResponseFileCycle,
}

/// What the parser knows: the family's prefixes, the response files by path
/// (each as its lines), and the working directory.
pub struct ParseCfg {
    pub resp: Seq<Seq<char>>,
    pub dep: Seq<Seq<char>>,
    pub files: Seq<(Seq<char>, Seq<Seq<char>>)>,
    pub cwd: Seq<char>,
}

/// The lines of the first supplied response file with this path.
pub open spec fn lookup_file(files: Seq<(Seq<char>, Seq<Seq<char>>)>, path: Seq<char>) -> Option<Seq<Seq<char>>>
    decreases files.len(),
{
    if files.len() == 0 {
        None
    } else if files[0].0 == path {
        Some(files[0].1)
    } else {
        lookup_file(files.drop_first(), path)
    }
}

/// Arguments of a response file are appended; its paths are adopted only where
/// none was found yet.
pub open spec fn adopt(acc: ArgsModel, inner: ArgsModel) -> ArgsModel {
    ArgsModel {
        args: acc.args + inner.args,
        dep: if acc.dep is Some { acc.dep } else { inner.dep },
        out: if acc.out is Some { acc.out } else { inner.out },
        src: if acc.src is Some { acc.src } else { inner.src },
    }
}

/// A path argument is written back glued to its prefix and recorded in its role.
pub open spec fn record_path(acc: ArgsModel, p: Seq<char>, path: Seq<char>, is_dep: bool) -> ArgsModel {
    ArgsModel {
        args: acc.args.push(p + path),
        dep: if is_dep { Some(path) } else { acc.dep },
        out: if !is_dep && p == seq!['-', 'o'] { Some(path) } else { acc.out },
        src: if !is_dep && p == seq!['-', 'c'] { Some(path) } else { acc.src },
    }
}

/// Continues after the path argument of prefix `p` at the head of `s`.
pub open spec fn path_prefix_of(cfg: ParseCfg, s: Seq<Seq<char>>) -> Option<(Seq<char>, bool)> {
    match first_prefix(s[0], cfg.dep) {
        Some(p) => Some((p, true)),
        None => match universal_flag(s[0]) {
            Some(p) => Some((p, false)),
            None => None,
        },
    }
}

/// The parse of the arguments `s`, continuing from `acc`: response files are
/// expanded first, then dependency-file prefixes, then `-I`, `-c`, `-o`; a
/// prefix alone takes the next argument as its operand.
pub open spec fn parse_seq(cfg: ParseCfg, s: Seq<Seq<char>>, fuel: nat, acc: ArgsModel) -> Result<ArgsModel, ParseFailure>
    decreases fuel, s.len(),
{
    if s.len() == 0 {
        Ok(acc)
    } else {
        match first_prefix(s[0], cfg.resp) {
            Some(p) => {
                if s[0] == p && s.len() < 2 {
                    Err(ParseFailure::MissingArgument)
                } else {
                    let path = if s[0] == p { s[1] } else { s[0].subrange(p.len() as int, s[0].len() as int) };
                    match lookup_file(cfg.files, path) {
                        None => Err(ParseFailure::MissingResponseFile(path)),
                        Some(lines) => {
                            if fuel == 0 {
                                Err(ParseFailure::ResponseFileCycle)
                            } else {
                                match parse_seq(cfg, lines, (fuel - 1) as nat, empty_model()) {
                                    Err(e) => Err(e),
                                    Ok(inner) => {
                                        if s[0] == p {
                                            parse_seq(cfg, s.subrange(2, s.len() as int), fuel, adopt(acc, inner))
                                        } else {
                                            parse_seq(cfg, s.drop_first(), fuel, adopt(acc, inner))
                                        }
                                    },
                                }
                            }
                        },
                    }
                }
            },
            None => match path_prefix_of(cfg, s) {
                Some((p, is_dep)) => {
                    if s[0] == p {
                        if s.len() < 2 {
                            Err(ParseFailure::MissingArgument)
                        } else {
                            parse_seq(cfg, s.subrange(2, s.len() as int), fuel,
                                record_path(acc, p, normalized(s[1], cfg.cwd), is_dep))
                        }
                    } else {
                        parse_seq(cfg, s.drop_first(), fuel,
                            record_path(acc, p, normalized(s[0].subrange(p.len() as int, s[0].len() as int), cfg.cwd), is_dep))
                    }
                },
                None => parse_seq(cfg, s.drop_first(), fuel, ArgsModel { args: acc.args.push(s[0]), ..acc }),
            },
        }
    }
}

/// The parse of a whole argument vector: nesting may go as deep as there are
/// response files, and every occurrence of `base_dir` is then removed from
/// each argument.
pub open spec fn parsed_args(cfg: ParseCfg, base_dir: Seq<char>, args: Seq<Seq<char>>) -> Result<ArgsModel, ParseFailure> {
    match parse_seq(cfg, args, cfg.files.len() as nat, empty_model()) {
        Ok(m) => Ok(ArgsModel { args: m.args.map_values(|a: Seq<char>| replaced(a, base_dir, Seq::empty())), ..m }),
        Err(e) => Err(e),
    }
}

/// The arguments of one response file (one per line) and the path it was read from.
#[derive(Debug)]
pub struct Parser {
    pub path: String,
    pub args: Vec<String>,
}

pub open spec fn files_view(files: Seq<Parser>) -> Seq<(Seq<char>, Seq<Seq<char>>)> {
    files.map_values(|f: Parser| (f.path@, strings_view(f.args@)))
}

/// A parsed argument vector.
#[derive(Debug)]
pub struct CompilerArgs {
    pub processed_args: Vec<String>,
    pub dep_file: Option<String>,
    pub out_file: Option<String>,
    pub source_file: Option<String>,
}

impl CompilerArgs {
    pub open spec fn model(&self) -> ArgsModel {
        ArgsModel {
            args: strings_view(self.processed_args@),
            dep: opt_string(self.dep_file),
            out: opt_string(self.out_file),
            src: opt_string(self.source_file),
        }
    }
}

/// Why an argument vector cannot be parsed.
#[derive(Debug)]
pub enum ParseError {
    MissingArgument,
    MissingResponseFile(String),
    ResponseFileCycle,
}

pub open spec fn failure_of(e: ParseError) -> ParseFailure {
    match e {
        ParseError::MissingArgument => ParseFailure::MissingArgument,
        ParseError::MissingResponseFile(p) => ParseFailure::MissingResponseFile(p@),
        ParseError::ResponseFileCycle => ParseFailure::ResponseFileCycle,
    }
}

pub open spec fn parse_result(r: Result<CompilerArgs, ParseError>) -> Result<ArgsModel, ParseFailure> {
    match r {
        Ok(a) => Ok(a.model()),
        Err(e) => Err(failure_of(e)),
    }
}

fn starts_with_chars(s: &Vec<char>, p: &Vec<char>) -> (r: bool)
    ensures
        r == prefix_of(p@, s@),
{
    if p.len() > s.len() {
        return false;
    }
    let mut j: usize = 0;
    while j < p.len()
        invariant
            p.len() <= s.len(),
            j <= p.len(),
            forall|k: int| 0 <= k < j ==> s@[k] == p@[k],
        decreases p.len() - j,
    {
        if s[j] != p[j] {
            assert(s@.subrange(0, p@.len() as int)[j as int] != p@[j as int]);
            return false;
        }
        j = j + 1;
    }
    assert(s@.subrange(0, p@.len() as int) =~= p@);
    true
}

proof fn lemma_first_prefix(s: Seq<char>, ps: Seq<Seq<char>>)
    ensures
        first_prefix(s, ps) matches Some(p) ==> prefix_of(p, s),
    decreases ps.len(),
{
    if ps.len() > 0 && !prefix_of(ps[0], s) {
        lemma_first_prefix(s, ps.drop_first());
    }
}

fn find_prefix(s: &Vec<char>, ps: &Vec<String>) -> (r: Option<Vec<char>>)
    ensures
        match r {
            Some(p) => first_prefix(s@, strings_view(ps@)) == Some(p@) && prefix_of(p@, s@),
            None => first_prefix(s@, strings_view(ps@)) is None,
        },
{
    let ghost pv = strings_view(ps@);
    let mut j: usize = 0;
    proof {
        assert(pv.subrange(0, pv.len() as int) =~= pv);
    }
    while j < ps.len()
        invariant
            j <= ps@.len(),
            pv == strings_view(ps@),
            first_prefix(s@, pv) == first_prefix(s@, pv.subrange(j as int, pv.len() as int)),
        decreases ps@.len() - j,
    {
        let p = chars_of(ps[j].as_str());
        let ghost rest = pv.subrange(j as int, pv.len() as int);
        proof {
            assert(rest[0] == p@);
            assert(rest.drop_first() =~= pv.subrange(j + 1, pv.len() as int));
        }
        if starts_with_chars(s, &p) {
            return Some(p);
        }
        j = j + 1;
    }
    None
}

fn find_file(files: &Vec<Parser>, path: &String) -> (r: Option<usize>)
    ensures
        match r {
            Some(k) => k < files@.len() && lookup_file(files_view(files@), path@) == Some(strings_view(files@[k as int].args@)),
            None => lookup_file(files_view(files@), path@) is None,
        },
{
    let ghost fv = files_view(files@);
    let mut j: usize = 0;
    proof {
        assert(fv.subrange(0, fv.len() as int) =~= fv);
    }
    while j < files.len()
        invariant
            j <= files@.len(),
            fv == files_view(files@),
            lookup_file(fv, path@) == lookup_file(fv.subrange(j as int, fv.len() as int), path@),
        decreases files@.len() - j,
    {
        let ghost rest = fv.subrange(j as int, fv.len() as int);
        proof {
            assert(rest.drop_first() =~= fv.subrange(j + 1, fv.len() as int));
        }
        if files[j].path == *path {
            return Some(j);
        }
        j = j + 1;
    }
    None
}

/// The characters of `v` from `start` on.
fn chars_from(v: &Vec<char>, start: usize) -> (r: Vec<char>)
    requires
        start <= v.len(),
    ensures
        r@ == v@.subrange(start as int, v@.len() as int),
{
    let mut out: Vec<char> = Vec::new();
    let mut i: usize = start;
    while i < v.len()
        invariant
            start <= i <= v.len(),
            out@ == v@.subrange(start as int, i as int),
        decreases v.len() - i,
    {
        out.push(v[i]);
        i = i + 1;
        proof {
            assert(v@.subrange(start as int, i as int) =~= v@.subrange(start as int, i - 1).push(v@[i - 1]));
        }
    }
    out
}

fn concat_chars(a: &Vec<char>, b: &Vec<char>) -> (r: Vec<char>)
    ensures
        r@ == a@ + b@,
{
    let mut out = chars_from(a, 0);
    let mut tail = chars_from(b, 0);
    proof {
        assert(a@.subrange(0, a@.len() as int) =~= a@);
        assert(b@.subrange(0, b@.len() as int) =~= b@);
    }
    out.append(&mut tail);
    out
}

/// Makes an absolute path relative to `cwd`, with forward slashes.
fn normalize_path(path: &Vec<char>, cwd: &str) -> (r: Vec<char>)
    ensures
        r@ == normalized(path@, cwd@),
{
    let copy = chars_from(path, 0);
    proof {
        assert(path@.subrange(0, path@.len() as int) =~= path@);
    }
    if path.len() > 0 && path[0] == '/' {
        let ps = string_of(path);
        match relative_path(ps.as_str(), cwd) {
            Some(rel) => {
                let bs: Vec<char> = vec!['\\'];
                let fs: Vec<char> = vec!['/'];
                proof {
                    assert(bs@ =~= seq!['\\']);
                    assert(fs@ =~= seq!['/']);
                }
                replace_all(&chars_of(rel.as_str()), &bs, &fs)
            },
            None => copy,
        }
    } else {
        copy
    }
}

/// The operand of a path prefix `p` matched by `arg`: the rest of `arg`, or the
/// next argument where `arg` is `p` alone (then `true`: the next one is taken).
fn handle_path_arg(arg: &Vec<char>, p: &Vec<char>, next_arg: Option<&String>) -> (r: Option<(bool, Vec<char>)>)
    requires
        prefix_of(p@, arg@),
    ensures
        arg@ == p@ ==> match next_arg {
            Some(n) => r matches Some((true, v)) && v@ == n@,
            None => r is None,
        },
        arg@ != p@ ==> (r matches Some((false, v)) && v@ == arg@.subrange(p@.len() as int, arg@.len() as int)),
{
    if arg.len() == p.len() {
        proof {
            assert(arg@ =~= p@);
        }
        match next_arg {
            Some(n) => Some((true, chars_of(n.as_str()))),
            None => None,
        }
    } else {
        Some((false, chars_from(arg, p.len())))
    }
}

/// A compiler that the wrapper stands in for: its family's prefixes and the
/// configured base directory.
#[derive(Debug)]
pub struct Compiler {
    pub name: String,
    pub resp_prefixes: Vec<String>,
    pub dep_prefixes: Vec<String>,
    pub base_dir: Option<String>,
}

/// The executable names that select the GCC family.
pub open spec fn is_gcc_name(n: Seq<char>) -> bool {
    n == seq!['g', 'c', 'c'] || n == seq!['g', '+', '+']
        || n == seq!['t', 'r', 'i', 'c', 'o', 'r', 'e', '-', 'g', 'c', 'c']
        || n == seq!['t', 'r', 'i', 'c', 'o', 'r', 'e', '-', 'g', '+', '+']
}

/// The executable name that selects the Tasking family.
pub open spec fn is_tasking_name(n: Seq<char>) -> bool {
    n == seq!['c', 'c', 't', 'c']
}

fn chars_equal(a: &Vec<char>, b: &Vec<char>) -> (r: bool)
    ensures
        r == (a@ == b@),
{
    if a.len() != b.len() {
        return false;
    }
    let r = starts_with_chars(a, b);
    proof {
        if r {
            assert(a@.subrange(0, b@.len() as int) =~= a@);
        } else if a@ == b@ {
            assert(a@.subrange(0, b@.len() as int) =~= b@);
        }
    }
    r
}

impl Compiler {
    /// The compiler for an executable name, or `None` for a compiler not known.
    pub fn new(exe_name: &str, base_dir: Option<String>) -> (r: Option<Compiler>)
        ensures
            is_gcc_name(exe_name@) ==> (r matches Some(c) && c.name@ == Gcc.name_spec()
                && strings_view(c.resp_prefixes@) == Gcc.resp_spec() && strings_view(c.dep_prefixes@) == Gcc.dep_spec()
                && c.base_dir == base_dir),
            is_tasking_name(exe_name@) ==> (r matches Some(c) && c.name@ == Tasking.name_spec()
                && strings_view(c.resp_prefixes@) == Tasking.resp_spec() && strings_view(c.dep_prefixes@) == Tasking.dep_spec()
                && c.base_dir == base_dir),
            !is_gcc_name(exe_name@) && !is_tasking_name(exe_name@) ==> r is None,
    {
        let n = chars_of(exe_name);
        let g1: Vec<char> = vec!['g', 'c', 'c'];
        let g2: Vec<char> = vec!['g', '+', '+'];
        let g3: Vec<char> = vec!['t', 'r', 'i', 'c', 'o', 'r', 'e', '-', 'g', 'c', 'c'];
        let g4: Vec<char> = vec!['t', 'r', 'i', 'c', 'o', 'r', 'e', '-', 'g', '+', '+'];
        let t1: Vec<char> = vec!['c', 'c', 't', 'c'];
        proof {
            assert(g1@ =~= seq!['g', 'c', 'c']);
            assert(g2@ =~= seq!['g', '+', '+']);
            assert(g3@ =~= seq!['t', 'r', 'i', 'c', 'o', 'r', 'e', '-', 'g', 'c', 'c']);
            assert(g4@ =~= seq!['t', 'r', 'i', 'c', 'o', 'r', 'e', '-', 'g', '+', '+']);
            assert(t1@ =~= seq!['c', 'c', 't', 'c']);
        }
        if chars_equal(&n, &g1) || chars_equal(&n, &g2) || chars_equal(&n, &g3) || chars_equal(&n, &g4) {
            let g = Gcc;
            Some(Compiler {
                name: g.get_name(),
                resp_prefixes: g.get_resp_file_prefix(),
                dep_prefixes: g.get_dep_file_prefix(),
                base_dir,
            })
        } else if chars_equal(&n, &t1) {
            let t = Tasking;
            Some(Compiler {
                name: t.get_name(),
                resp_prefixes: t.get_resp_file_prefix(),
                dep_prefixes: t.get_dep_file_prefix(),
                base_dir,
            })
        } else {
            None
        }
    }

    pub fn get_name(&self) -> (r: String)
        ensures
            r == self.name,
    {
        self.name.clone()
    }

    /// What the parser knows, given the response files and the working directory.
    pub open spec fn parse_cfg(&self, files: Seq<Parser>, cwd: Seq<char>) -> ParseCfg {
        ParseCfg {
            resp: strings_view(self.resp_prefixes@),
            dep: strings_view(self.dep_prefixes@),
            files: files_view(files),
            cwd,
        }
    }

    pub open spec fn base_dir_spec(&self) -> Seq<char> {
        match self.base_dir {
            Some(b) => b@,
            None => Seq::empty(),
        }
    }

    fn parse_level(&self, args: &Vec<String>, files: &Vec<Parser>, cwd: &str, fuel: usize) -> (r: Result<CompilerArgs, ParseError>)
        ensures
            parse_result(r) == parse_seq(self.parse_cfg(files@, cwd@), strings_view(args@), fuel as nat, empty_model()),
        decreases fuel,
    {
        let ghost cfg = self.parse_cfg(files@, cwd@);
        let ghost sv = strings_view(args@);
        let ghost target = parse_seq(cfg, sv, fuel as nat, empty_model());
        let mut acc = CompilerArgs { processed_args: Vec::new(), dep_file: None, out_file: None, source_file: None };
        let mut i: usize = 0;
        proof {
            assert(sv.subrange(0, sv.len() as int) =~= sv);
            assert(strings_view(acc.processed_args@) =~= Seq::<Seq<char>>::empty());
            assert(acc.model() == empty_model());
        }
        while i < args.len()
            invariant
                i <= args@.len(),
                cfg == self.parse_cfg(files@, cwd@),
                sv == strings_view(args@),
                target == parse_seq(cfg, sv, fuel as nat, empty_model()),
                parse_seq(cfg, sv.subrange(i as int, sv.len() as int), fuel as nat, acc.model()) == target,
            decreases args@.len() - i,
        {
            let a = chars_of(args[i].as_str());
            let ghost rest = sv.subrange(i as int, sv.len() as int);
            proof {
                assert(rest[0] == a@);
                assert(rest.drop_first() =~= sv.subrange(i + 1, sv.len() as int));
                if rest.len() >= 2 {
                    assert(rest[1] == args@[i + 1]@);
                    assert(rest.subrange(2, rest.len() as int) =~= sv.subrange(i + 2, sv.len() as int));
                }
            }
            match find_prefix(&a, &self.resp_prefixes) {
                Some(p) => {
                    let next = if i + 1 < args.len() { Some(&args[i + 1]) } else { None };
                    let path_chars = match handle_path_arg(&a, &p, next) {
                        Some((_, v)) => v,
                        None => {
                            return Err(ParseError::MissingArgument);
                        },
                    };
                    let alone = a.len() == p.len();
                    proof {
                        if alone {
                            assert(a@ =~= p@);
                        } else {
                            assert(a@ != p@);
                        }
                    }
                    let path = string_of(&path_chars);
                    match find_file(files, &path) {
                        None => {
                            return Err(ParseError::MissingResponseFile(path));
                        },
                        Some(k) => {
                            if fuel == 0 {
                                return Err(ParseError::ResponseFileCycle);
                            }
                            let inner = match self.parse_level(&files[k].args, files, cwd, fuel - 1) {
                                Ok(x) => x,
                                Err(e) => {
                                    return Err(e);
                                },
                            };
                            let ghost before = acc.model();
                            let mut more = inner.processed_args;
                            acc.processed_args.append(&mut more);
                            if acc.dep_file.is_none() {
                                acc.dep_file = inner.dep_file;
                            }
                            if acc.out_file.is_none() {
                                acc.out_file = inner.out_file;
                            }
                            if acc.source_file.is_none() {
                                acc.source_file = inner.source_file;
                            }
                            proof {
                                assert(acc.model().args =~= before.args + inner.model().args);
                                assert(acc.model() == adopt(before, inner.model()));
                            }
                            i = if alone { i + 2 } else { i + 1 };
                        },
                    }
                },
                None => {
                    let (p, is_dep) = match find_prefix(&a, &self.dep_prefixes) {
                        Some(p) => (Some(p), true),
                        None => {
                            if a.len() >= 2 && a[0] == '-' && (a[1] == 'I' || a[1] == 'c' || a[1] == 'o') {
                                let u: Vec<char> = vec!['-', a[1]];
                                proof {
                                    assert(u@ =~= a@.subrange(0, 2));
                                    assert(prefix_of(u@, a@));
                                }
                                (Some(u), false)
                            } else {
                                (None, false)
                            }
                        },
                    };
                    match p {
                        Some(p) => {
                            proof {
                                assert(path_prefix_of(cfg, rest) == Some((p@, is_dep)));
                            }
                            let next = if i + 1 < args.len() { Some(&args[i + 1]) } else { None };
                            let (took_next, operand) = match handle_path_arg(&a, &p, next) {
                                Some(x) => x,
                                None => {
                                    return Err(ParseError::MissingArgument);
                                },
                            };
                            let norm = normalize_path(&operand, cwd);
                            let glued = string_of(&concat_chars(&p, &norm));
                            let ghost before = acc.model();
                            acc.processed_args.push(glued);
                            let dash_o: Vec<char> = vec!['-', 'o'];
                            let dash_c: Vec<char> = vec!['-', 'c'];
                            proof {
                                assert(dash_o@ =~= seq!['-', 'o']);
                                assert(dash_c@ =~= seq!['-', 'c']);
                            }
                            if is_dep {
                                acc.dep_file = Some(string_of(&norm));
                            } else if chars_equal(&p, &dash_o) {
                                acc.out_file = Some(string_of(&norm));
                            } else if chars_equal(&p, &dash_c) {
                                acc.source_file = Some(string_of(&norm));
                            }
                            proof {
                                assert(acc.model().args =~= before.args.push(p@ + norm@));
                                assert(acc.model() == record_path(before, p@, norm@, is_dep));
                                if took_next {
                                    assert(a@ =~= p@);
                                } else {
                                    assert(a@ != p@);
                                }
                            }
                            i = if took_next { i + 2 } else { i + 1 };
                        },
                        None => {
                            proof {
                                assert(path_prefix_of(cfg, rest) is None);
                            }
                            let ghost before = acc.model();
                            acc.processed_args.push(args[i].clone());
                            proof {
                                assert(acc.model().args =~= before.args.push(a@));
                            }
                            i = i + 1;
                        },
                    }
                },
            }
        }
        Ok(acc)
    }

    /// Parses an argument vector (without the program name). `files` holds the
    /// response files read so far; where one more is needed the result says
    /// which (`MissingResponseFile`), so that a caller can read it and retry.
    pub fn parse_args(&self, args: &Vec<String>, files: &Vec<Parser>, cwd: &str) -> (r: Result<CompilerArgs, ParseError>)
        ensures
            parse_result(r) == parsed_args(self.parse_cfg(files@, cwd@), self.base_dir_spec(), strings_view(args@)),
    {
        let r = self.parse_level(args, files, cwd, files.len());
        match r {
            Ok(m) => {
                let mut out: Vec<String> = Vec::new();
                let base: Vec<char> = match &self.base_dir {
                    Some(b) => chars_of(b.as_str()),
                    None => Vec::new(),
                };
                let empty: Vec<char> = Vec::new();
                let mut i: usize = 0;
                while i < m.processed_args.len()
                    invariant
                        i <= m.processed_args@.len(),
                        base@ == self.base_dir_spec(),
                        empty@ == Seq::<char>::empty(),
                        out@.len() == i,
                        forall|k: int| 0 <= k < i ==> #[trigger] out@[k]@ == replaced(m.processed_args@[k]@, base@, Seq::empty()),
                    decreases m.processed_args@.len() - i,
                {
                    let a = chars_of(m.processed_args[i].as_str());
                    let stripped = replace_all(&a, &base, &empty);
                    out.push(string_of(&stripped));
                    i = i + 1;
                }
                let res = CompilerArgs {
                    processed_args: out,
                    dep_file: m.dep_file,
                    out_file: m.out_file,
                    source_file: m.source_file,
                };
                proof {
                    assert(res.model().args =~= m.model().args.map_values(|a: Seq<char>| replaced(a, self.base_dir_spec(), Seq::empty())));
                }
                Ok(res)
            },
            Err(e) => Err(e),
        }
    }
}

proof fn lemma_not_prefix_at(p: Seq<char>, s: Seq<char>, k: int)
    requires
        0 <= k < p.len(),
        k < s.len(),
        p[k] != s[k],
    ensures
        !prefix_of(p, s),
{
    if p.len() <= s.len() {
        assert(s.subrange(0, p.len() as int)[k] == s[k]);
    }
}

proof fn lemma_no_family_prefix(s: Seq<char>)
    requires
        s.len() >= 2,
        s[0] == '-',
        s[1] == 'o',
    ensures
        first_prefix(s, Gcc.resp_spec()) is None,
        first_prefix(s, Gcc.dep_spec()) is None,
        first_prefix(s, Tasking.resp_spec()) is None,
        first_prefix(s, Tasking.dep_spec()) is None,
{
    let g = Gcc.resp_spec();
    lemma_not_prefix_at(g[0], s, 0);
    assert(first_prefix(s, g.drop_first()) is None);
    let gd = Gcc.dep_spec();
    lemma_not_prefix_at(gd[0], s, 1);
    assert(first_prefix(s, gd.drop_first()) is None);
    let t = Tasking.resp_spec();
    lemma_not_prefix_at(t[0], s, 1);
    lemma_not_prefix_at(t[1], s, 1);
    let t1 = t.drop_first();
    assert(t1[0] == t[1]);
    assert(t1.drop_first().len() == 0);
    assert(first_prefix(s, t1.drop_first()) is None);
    assert(first_prefix(s, t1) is None);
    let td = Tasking.dep_spec();
    lemma_not_prefix_at(td[0], s, 1);
    assert(first_prefix(s, td.drop_first()) is None);
}

/// For either compiler family, an output path glued to `-o` (`-ofoo.o`) parses
/// exactly as the same path given as the next argument (`-o foo.o`), whatever
/// arguments follow.
pub proof fn lemma_glued_output(cfg: ParseCfg, path: Seq<char>, rest: Seq<Seq<char>>, fuel: nat, acc: ArgsModel)
    requires
        path.len() > 0,
        (cfg.resp == Gcc.resp_spec() && cfg.dep == Gcc.dep_spec())
            || (cfg.resp == Tasking.resp_spec() && cfg.dep == Tasking.dep_spec()),
    ensures
        parse_seq(cfg, seq![seq!['-', 'o'] + path] + rest, fuel, acc)
            == parse_seq(cfg, seq![seq!['-', 'o'], path] + rest, fuel, acc),
{
    let o = seq!['-', 'o'];
    let glued = o + path;
    let s1 = seq![glued] + rest;
    let s2 = seq![o, path] + rest;
    lemma_no_family_prefix(glued);
    lemma_no_family_prefix(o);
    assert(s1[0] == glued);
    assert(s2[0] == o);
    assert(s2[1] == path);
    assert(universal_flag(glued) == Some(o)) by {
        assert(glued.subrange(0, 2) =~= o);
    }
    assert(universal_flag(o) == Some(o)) by {
        assert(o.subrange(0, 2) =~= o);
    }
    assert(glued != o) by {
        assert(glued.len() != o.len());
    }
    assert(glued.subrange(2, glued.len() as int) =~= path);
    assert(s1.drop_first() =~= rest);
    assert(s2.subrange(2, s2.len() as int) =~= rest);
}

/// Lines are split at `\n`; a line ended by `\n` loses one `\r` before it.
pub open spec fn strip_cr(line: Seq<char>) -> Seq<char> {
    if line.len() > 0 && line.last() == '\r' {
        line.drop_last()
    } else {
        line
    }
}

/// The finished lines and the current one after reading `s`.
pub open spec fn lines_state(s: Seq<char>) -> (Seq<Seq<char>>, Seq<char>)
    decreases s.len(),
{
    if s.len() == 0 {
        (Seq::empty(), Seq::empty())
    } else {
        let (done, cur) = lines_state(s.drop_last());
        if s.last() == '\n' {
            (done.push(strip_cr(cur)), Seq::empty())
        } else {
            (done, cur.push(s.last()))
        }
    }
}

/// The lines of a text, as a buffered reader yields them: no empty last line
/// after a final newline.
pub open spec fn lines_of(s: Seq<char>) -> Seq<Seq<char>> {
    let (done, cur) = lines_state(s);
    if cur.len() > 0 {
        done.push(cur)
    } else {
        done
    }
}

impl Parser {
    /// A response file from its path and content: one argument per line.
    pub fn from_content(path: String, content: &str) -> (r: Parser)
        ensures
            r.path == path,
            strings_view(r.args@) == lines_of(content@),
    {
        let text = chars_of(content);
        let mut done: Vec<String> = Vec::new();
        let mut cur: Vec<char> = Vec::new();
        let mut i: usize = 0;
        while i < text.len()
            invariant
                i <= text@.len(),
                (strings_view(done@), cur@) == lines_state(text@.subrange(0, i as int)),
            decreases text@.len() - i,
        {
            proof {
                assert(text@.subrange(0, i + 1).drop_last() =~= text@.subrange(0, i as int));
            }
            if text[i] == '\n' {
                if cur.len() > 0 && cur[cur.len() - 1] == '\r' {
                    cur.pop();
                    proof {
                        assert(cur@ =~= strip_cr(lines_state(text@.subrange(0, i as int)).1));
                    }
                }
                let ghost before = done@;
                done.push(string_of(&cur));
                cur = Vec::new();
                proof {
                    assert(strings_view(done@) =~= strings_view(before).push(lines_state(text@.subrange(0, i + 1)).0.last()));
                }
            } else {
                cur.push(text[i]);
            }
            i = i + 1;
        }
        proof {
            assert(text@.subrange(0, text@.len() as int) =~= text@);
        }
        if cur.len() > 0 {
            let ghost before = done@;
            done.push(string_of(&cur));
            proof {
                assert(strings_view(done@) =~= strings_view(before).push(cur@));
            }
        }
        Parser { path, args: done }
    }
}

/// Whether two parse results agree on success and, where both succeed, on
/// the arguments (after `prefix`).
pub open spec fn same_args_after(r1: Result<ArgsModel, ParseFailure>, prefix: Seq<Seq<char>>, r2: Result<ArgsModel, ParseFailure>) -> bool {
    match (r1, r2) {
        (Ok(m1), Ok(m2)) => m1.args == prefix + m2.args,
        (Err(e1), Err(e2)) => e1 == e2,
        _ => false,
    }
}

proof fn lemma_parse_acc(cfg: ParseCfg, s: Seq<Seq<char>>, fuel: nat, acc: ArgsModel)
    ensures
        same_args_after(parse_seq(cfg, s, fuel, acc), acc.args, parse_seq(cfg, s, fuel, empty_model())),
    decreases s.len(),
{
    let e = empty_model();
    if s.len() == 0 {
        assert(acc.args + e.args =~= acc.args);
    } else {
        match first_prefix(s[0], cfg.resp) {
            Some(p) => {
                if s[0] == p && s.len() < 2 {
                } else {
                    let path = if s[0] == p { s[1] } else { s[0].subrange(p.len() as int, s[0].len() as int) };
                    match lookup_file(cfg.files, path) {
                        None => {},
                        Some(lines) => {
                            if fuel > 0 {
                                match parse_seq(cfg, lines, (fuel - 1) as nat, e) {
                                    Err(_) => {},
                                    Ok(inner) => {
                                        let rest = if s[0] == p { s.subrange(2, s.len() as int) } else { s.drop_first() };
                                        let a1 = adopt(acc, inner);
                                        let a0 = adopt(e, inner);
                                        lemma_parse_acc(cfg, rest, fuel, a1);
                                        lemma_parse_acc(cfg, rest, fuel, a0);
                                        assert(a0.args =~= inner.args);
                                        if let (Ok(m1), Ok(m0), Ok(r0)) = (parse_seq(cfg, rest, fuel, a1), parse_seq(cfg, rest, fuel, a0), parse_seq(cfg, rest, fuel, e)) {
                                            assert(m1.args =~= acc.args + m0.args);
                                        }
                                    },
                                }
                            }
                        },
                    }
                }
            },
            None => match path_prefix_of(cfg, s) {
                Some((p, is_dep)) => {
                    if s[0] == p {
                        if s.len() >= 2 {
                            let a1 = record_path(acc, p, normalized(s[1], cfg.cwd), is_dep);
                            let a0 = record_path(e, p, normalized(s[1], cfg.cwd), is_dep);
                            lemma_parse_acc(cfg, s.subrange(2, s.len() as int), fuel, a1);
                            lemma_parse_acc(cfg, s.subrange(2, s.len() as int), fuel, a0);
                            assert(a1.args =~= acc.args + a0.args);
                            if let (Ok(m1), Ok(m0), Ok(r0)) = (parse_seq(cfg, s.subrange(2, s.len() as int), fuel, a1), parse_seq(cfg, s.subrange(2, s.len() as int), fuel, a0), parse_seq(cfg, s.subrange(2, s.len() as int), fuel, e)) {
                                assert(m1.args =~= acc.args + m0.args);
                            }
                        }
                    } else {
                        let path = normalized(s[0].subrange(p.len() as int, s[0].len() as int), cfg.cwd);
                        let a1 = record_path(acc, p, path, is_dep);
                        let a0 = record_path(e, p, path, is_dep);
                        lemma_parse_acc(cfg, s.drop_first(), fuel, a1);
                        lemma_parse_acc(cfg, s.drop_first(), fuel, a0);
                        assert(a1.args =~= acc.args + a0.args);
                        if let (Ok(m1), Ok(m0), Ok(r0)) = (parse_seq(cfg, s.drop_first(), fuel, a1), parse_seq(cfg, s.drop_first(), fuel, a0), parse_seq(cfg, s.drop_first(), fuel, e)) {
                            assert(m1.args =~= acc.args + m0.args);
                        }
                    }
                },
                None => {
                    let a1 = ArgsModel { args: acc.args.push(s[0]), ..acc };
                    let a0 = ArgsModel { args: e.args.push(s[0]), ..e };
                    lemma_parse_acc(cfg, s.drop_first(), fuel, a1);
                    lemma_parse_acc(cfg, s.drop_first(), fuel, a0);
                    assert(a1.args =~= acc.args + a0.args);
                    if let (Ok(m1), Ok(m0), Ok(r0)) = (parse_seq(cfg, s.drop_first(), fuel, a1), parse_seq(cfg, s.drop_first(), fuel, a0), parse_seq(cfg, s.drop_first(), fuel, e)) {
                        assert(m1.args =~= acc.args + m0.args);
                    }
                },
            },
        }
    }
}

proof fn lemma_parse_concat(cfg: ParseCfg, a: Seq<Seq<char>>, b: Seq<Seq<char>>, fuel: nat, acc: ArgsModel)
    requires
        parse_seq(cfg, a, fuel, acc) is Ok,
    ensures
        parse_seq(cfg, a + b, fuel, acc) == parse_seq(cfg, b, fuel, parse_seq(cfg, a, fuel, acc)->Ok_0),
    decreases a.len(),
{
    let s = a + b;
    if a.len() == 0 {
        assert(s =~= b);
    } else {
        assert(s[0] == a[0]);
        if a.len() >= 2 {
            assert(s[1] == a[1]);
            assert(s.subrange(2, s.len() as int) =~= a.subrange(2, a.len() as int) + b);
        }
        assert(s.drop_first() =~= a.drop_first() + b);
        match first_prefix(a[0], cfg.resp) {
            Some(p) => {
                let path = if a[0] == p { a[1] } else { a[0].subrange(p.len() as int, a[0].len() as int) };
                let lines = lookup_file(cfg.files, path)->Some_0;
                let inner = parse_seq(cfg, lines, (fuel - 1) as nat, empty_model())->Ok_0;
                if a[0] == p {
                    lemma_parse_concat(cfg, a.subrange(2, a.len() as int), b, fuel, adopt(acc, inner));
                } else {
                    lemma_parse_concat(cfg, a.drop_first(), b, fuel, adopt(acc, inner));
                }
            },
            None => match path_prefix_of(cfg, a) {
                Some((p, is_dep)) => {
                    assert(path_prefix_of(cfg, s) == path_prefix_of(cfg, a));
                    if a[0] == p {
                        lemma_parse_concat(cfg, a.subrange(2, a.len() as int), b, fuel,
                            record_path(acc, p, normalized(a[1], cfg.cwd), is_dep));
                    } else {
                        lemma_parse_concat(cfg, a.drop_first(), b, fuel,
                            record_path(acc, p, normalized(a[0].subrange(p.len() as int, a[0].len() as int), cfg.cwd), is_dep));
                    }
                },
                None => {
                    assert(path_prefix_of(cfg, s) == path_prefix_of(cfg, a));
                    lemma_parse_concat(cfg, a.drop_first(), b, fuel, ArgsModel { args: acc.args.push(a[0]), ..acc });
                },
            },
        }
    }
}

proof fn lemma_parse_fuel(cfg: ParseCfg, s: Seq<Seq<char>>, f1: nat, f2: nat, acc: ArgsModel)
    requires
        f1 <= f2,
        parse_seq(cfg, s, f1, acc) is Ok,
    ensures
        parse_seq(cfg, s, f2, acc) == parse_seq(cfg, s, f1, acc),
    decreases f1, s.len(),
{
    if s.len() > 0 {
        match first_prefix(s[0], cfg.resp) {
            Some(p) => {
                let path = if s[0] == p { s[1] } else { s[0].subrange(p.len() as int, s[0].len() as int) };
                let lines = lookup_file(cfg.files, path)->Some_0;
                lemma_parse_fuel(cfg, lines, (f1 - 1) as nat, (f2 - 1) as nat, empty_model());
                let inner = parse_seq(cfg, lines, (f1 - 1) as nat, empty_model())->Ok_0;
                if s[0] == p {
                    lemma_parse_fuel(cfg, s.subrange(2, s.len() as int), f1, f2, adopt(acc, inner));
                } else {
                    lemma_parse_fuel(cfg, s.drop_first(), f1, f2, adopt(acc, inner));
                }
            },
            None => match path_prefix_of(cfg, s) {
                Some((p, is_dep)) => {
                    if s[0] == p {
                        lemma_parse_fuel(cfg, s.subrange(2, s.len() as int), f1, f2,
                            record_path(acc, p, normalized(s[1], cfg.cwd), is_dep));
                    } else {
                        lemma_parse_fuel(cfg, s.drop_first(), f1, f2,
                            record_path(acc, p, normalized(s[0].subrange(p.len() as int, s[0].len() as int), cfg.cwd), is_dep));
                    }
                },
                None => {
                    lemma_parse_fuel(cfg, s.drop_first(), f1, f2, ArgsModel { args: acc.args.push(s[0]), ..acc });
                },
            },
        }
    }
}

/// A response-file argument (`@file`, the path glued to the prefix) between
/// other arguments gives the argument vector that the file's lines would give
/// standing in its place: nested response files flatten to the arguments of
/// one file holding all their lines. Both parses succeed or fail together.
pub proof fn lemma_response_file_flattens(
    cfg: ParseCfg,
    before: Seq<Seq<char>>,
    r: Seq<char>,
    after: Seq<Seq<char>>,
    lines: Seq<Seq<char>>,
    fuel: nat,
)
    requires
        fuel > 0,
        first_prefix(r, cfg.resp) matches Some(p) && r != p
            && lookup_file(cfg.files, r.subrange(p.len() as int, r.len() as int)) == Some(lines),
        parse_seq(cfg, before, fuel, empty_model()) is Ok,
        parse_seq(cfg, lines, (fuel - 1) as nat, empty_model()) is Ok,
    ensures
        same_args_after(
            parse_seq(cfg, before + seq![r] + after, fuel, empty_model()),
            Seq::empty(),
            parse_seq(cfg, before + lines + after, fuel, empty_model()),
        ),
{
    let e = empty_model();
    let mb = parse_seq(cfg, before, fuel, e)->Ok_0;
    let inner = parse_seq(cfg, lines, (fuel - 1) as nat, e)->Ok_0;
    lemma_parse_concat(cfg, before, seq![r] + after, fuel, e);
    assert(before + seq![r] + after =~= before + (seq![r] + after));
    let nested_rest = seq![r] + after;
    assert(nested_rest[0] == r);
    assert(nested_rest.drop_first() =~= after);
    let x = adopt(mb, inner);
    assert(parse_seq(cfg, nested_rest, fuel, mb) == parse_seq(cfg, after, fuel, x));

    lemma_parse_fuel(cfg, lines, (fuel - 1) as nat, fuel, e);
    lemma_parse_acc(cfg, lines, fuel, mb);
    let y = parse_seq(cfg, lines, fuel, mb)->Ok_0;
    assert(y.args == mb.args + inner.args);
    lemma_parse_concat(cfg, before, lines + after, fuel, e);
    assert(before + lines + after =~= before + (lines + after));
    lemma_parse_concat(cfg, lines, after, fuel, mb);

    lemma_parse_acc(cfg, after, fuel, x);
    lemma_parse_acc(cfg, after, fuel, y);
    assert(x.args == y.args);
    let rx = parse_seq(cfg, after, fuel, x);
    let ry = parse_seq(cfg, after, fuel, y);
    if let (Ok(m1), Ok(m2)) = (rx, ry) {
        assert(m1.args =~= Seq::<Seq<char>>::empty() + m2.args);
    }
}

} // verus!
