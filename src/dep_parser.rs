//! Make-style dependency files: parsing into a target and an ordered,
//! case-insensitively deduplicated list of prerequisites, and rendering back.

use vstd::prelude::*;
use crate::text::{chars_of, lemma_replaced_absent, lemma_replaced_concat, lemma_replaced_head, lower_of, lowercase, occurs_at, replace_all, replaced, string_of};

verus! {

/// Whitespace that separates words on a dependency line: the characters
/// with the Unicode `White_Space` property.
pub open spec fn is_blank(c: char) -> bool {
    ('\t' <= c && c <= '\r') || c == ' ' || c == '\u{85}' || c == '\u{a0}' || c == '\u{1680}'
        || ('\u{2000}' <= c && c <= '\u{200a}') || c == '\u{2028}' || c == '\u{2029}'
        || c == '\u{202f}' || c == '\u{205f}' || c == '\u{3000}'
}

/// `s` without its trailing whitespace.
pub open spec fn trim_end(s: Seq<char>) -> Seq<char>
    decreases s.len(),
{
    if s.len() > 0 && is_blank(s.last()) {
        trim_end(s.drop_last())
    } else {
        s
    }
}

/// The state of the scanner after a prefix of the (continuation-folded) text.
pub struct ScanState {
    /// Inside a double-quoted span.
    pub in_quote: bool,
    /// A word has started (it may still be empty, as `""` is).
    pub active: bool,
    /// The current word, quotes removed.
    pub word: Seq<char>,
    /// The current word ends with a `:` outside quotes.
    pub colon: bool,
    /// The last character of the current word is a `\` outside quotes.
    pub escape: bool,
    /// A word ending in `:` has been seen on the current line.
    pub line_has_target: bool,
    /// The first target of the file.
    pub target: Option<Seq<char>>,
    /// The prerequisites so far, in order, duplicates included.
    pub raw: Seq<Seq<char>>,
}

pub open spec fn scan_init() -> ScanState {
    ScanState {
        in_quote: false,
        active: false,
        word: Seq::empty(),
        colon: false,
        escape: false,
        line_has_target: false,
        target: None,
        raw: Seq::empty(),
    }
}

/// `w` without its last character.
pub open spec fn without_last(w: Seq<char>) -> Seq<char> {
    if w.len() > 0 {
        w.drop_last()
    } else {
        w
    }
}

/// Closes the current word: a word ending in `:` is a target (the first one
/// is kept), any other word after a target on the same line is a prerequisite.
pub open spec fn end_word(st: ScanState) -> ScanState {
    let st2 = if !st.active {
        st
    } else if st.colon {
        if st.target is None {
            ScanState { target: Some(trim_end(without_last(st.word))), line_has_target: true, ..st }
        } else {
            ScanState { line_has_target: true, ..st }
        }
    } else if st.line_has_target {
        ScanState { raw: st.raw.push(st.word), ..st }
    } else {
        st
    };
    ScanState { active: false, word: Seq::empty(), colon: false, escape: false, ..st2 }
}

/// One character of the scan.
pub open spec fn scan_step(st: ScanState, c: char) -> ScanState {
    if c == '\n' {
        ScanState { in_quote: false, line_has_target: false, ..end_word(st) }
    } else if st.in_quote {
        if c == '"' {
            ScanState { in_quote: false, colon: false, escape: false, ..st }
        } else {
            ScanState { word: st.word.push(c), colon: false, escape: false, ..st }
        }
    } else if c == '"' {
        ScanState { in_quote: true, active: true, colon: false, escape: false, ..st }
    } else if c == ' ' && st.escape {
        ScanState { word: st.word.push(c), colon: false, escape: false, ..st }
    } else if is_blank(c) {
        end_word(st)
    } else {
        ScanState { word: st.word.push(c), active: true, colon: c == ':', escape: c == '\\', ..st }
    }
}

/// The scan of `s` from state `st`, left to right.
pub open spec fn scan_run(st: ScanState, s: Seq<char>) -> ScanState
    decreases s.len(),
{
    if s.len() == 0 {
        st
    } else {
        scan_run(scan_step(st, s[0]), s.drop_first())
    }
}

/// The text with line continuations (a `\` before CRLF or LF) folded to one space.
pub open spec fn folded(content: Seq<char>) -> Seq<char> {
    replaced(replaced(content, seq!['\\', '\r', '\n'], seq![' ']), seq!['\\', '\n'], seq![' '])
}

/// The scan of a whole dependency file.
pub open spec fn scan_file(content: Seq<char>) -> ScanState {
    end_word(scan_run(scan_init(), folded(content)))
}

/// Whether `x` equals some element of `s` up to case.
pub open spec fn seen_lower(s: Seq<Seq<char>>, x: Seq<char>) -> bool {
    exists|j: int| 0 <= j < s.len() && #[trigger] lower_of(s[j]) == lower_of(x)
}

/// The first occurrence of each element of `s`, up to case, in order.
pub open spec fn dedup_lower(s: Seq<Seq<char>>) -> Seq<Seq<char>>
    decreases s.len(),
{
    if s.len() == 0 {
        Seq::empty()
    } else {
        let prev = dedup_lower(s.drop_last());
        if seen_lower(prev, s.last()) {
            prev
        } else {
            prev.push(s.last())
        }
    }
}

/// The prerequisites that a dependency file lists.
pub open spec fn parsed_deps(content: Seq<char>) -> Seq<Seq<char>> {
    dedup_lower(scan_file(content).raw)
}

/// The target of a dependency file (empty where it has none).
pub open spec fn parsed_target(content: Seq<char>) -> Seq<char> {
    match scan_file(content).target {
        Some(t) => t,
        None => Seq::empty(),
    }
}

/// The rendered form: `target:` then, for each prerequisite, ` \`, a newline and the path.
pub open spec fn rendered(target: Seq<char>, deps: Seq<Seq<char>>) -> Seq<char>
    decreases deps.len(),
{
    if deps.len() == 0 {
        target.push(':')
    } else {
        rendered(target, deps.drop_last()) + seq![' ', '\\', '\n'] + deps.last()
    }
}

pub proof fn lemma_scan_run_append(st: ScanState, a: Seq<char>, b: Seq<char>)
    ensures
        scan_run(st, a + b) == scan_run(scan_run(st, a), b),
    decreases a.len(),
{
    if a.len() > 0 {
        assert((a + b).drop_first() =~= a.drop_first() + b);
        lemma_scan_run_append(scan_step(st, a[0]), a.drop_first(), b);
    } else {
        assert(a + b =~= b);
    }
}

pub proof fn lemma_scan_run_push(st: ScanState, a: Seq<char>, c: char)
    ensures
        scan_run(st, a.push(c)) == scan_step(scan_run(st, a), c),
{
    lemma_scan_run_append(st, a, seq![c]);
    assert(a.push(c) =~= a + seq![c]);
    let mid = scan_run(st, a);
    assert(seq![c].drop_first() =~= Seq::<char>::empty());
    assert(scan_run(mid, seq![c]) == scan_run(scan_step(mid, c), Seq::<char>::empty()));
}

pub open spec fn opt_view(o: Option<Vec<char>>) -> Option<Seq<char>> {
    match o {
        Some(v) => Some(v@),
        None => None,
    }
}

pub open spec fn words_view(v: Seq<Vec<char>>) -> Seq<Seq<char>> {
    v.map_values(|w: Vec<char>| w@)
}

fn is_blank_char(c: char) -> (r: bool)
    ensures
        r == is_blank(c),
{
    ('\t' <= c && c <= '\r') || c == ' ' || c == '\u{85}' || c == '\u{a0}' || c == '\u{1680}'
        || ('\u{2000}' <= c && c <= '\u{200a}') || c == '\u{2028}' || c == '\u{2029}'
        || c == '\u{202f}' || c == '\u{205f}' || c == '\u{3000}'
}

fn trim_end_vec(v: Vec<char>) -> (r: Vec<char>)
    ensures
        r@ == trim_end(v@),
{
    let mut v = v;
    let ghost orig = v@;
    while v.len() > 0 && is_blank_char(v[v.len() - 1])
        invariant
            trim_end(v@) == trim_end(orig),
        decreases v.len(),
    {
        proof {
            assert(v@.drop_last() =~= v@.subrange(0, v@.len() - 1));
        }
        v.pop();
    }
    v
}

struct Scanner {
    in_quote: bool,
    active: bool,
    word: Vec<char>,
    colon: bool,
    escape: bool,
    line_has_target: bool,
    target: Option<Vec<char>>,
    raw: Vec<Vec<char>>,
}

impl Scanner {
    spec fn state(&self) -> ScanState {
        ScanState {
            in_quote: self.in_quote,
            active: self.active,
            word: self.word@,
            colon: self.colon,
            escape: self.escape,
            line_has_target: self.line_has_target,
            target: opt_view(self.target),
            raw: words_view(self.raw@),
        }
    }

    fn new() -> (r: Scanner)
        ensures
            r.state() == scan_init(),
    {
        let r = Scanner {
            in_quote: false,
            active: false,
            word: Vec::new(),
            colon: false,
            escape: false,
            line_has_target: false,
            target: None,
            raw: Vec::new(),
        };
        assert(words_view(r.raw@) =~= Seq::<Seq<char>>::empty());
        r
    }

    fn end_word(&mut self)
        ensures
            final(self).state() == end_word(old(self).state()),
    {
        let mut w: Vec<char> = Vec::new();
        std::mem::swap(&mut w, &mut self.word);
        if self.active {
            if self.colon {
                if self.target.is_none() {
                    let mut t = w;
                    t.pop();
                    proof {
                        assert(t@ =~= without_last(old(self).word@));
                    }
                    self.target = Some(trim_end_vec(t));
                }
                self.line_has_target = true;
            } else if self.line_has_target {
                self.raw.push(w);
                proof {
                    assert(words_view(self.raw@) =~= words_view(old(self).raw@).push(old(self).word@));
                }
            }
        }
        self.active = false;
        self.colon = false;
        self.escape = false;
    }

    fn step(&mut self, c: char)
        ensures
            final(self).state() == scan_step(old(self).state(), c),
    {
        if c == '\n' {
            self.end_word();
            self.in_quote = false;
            self.line_has_target = false;
        } else if self.in_quote {
            if c != '"' {
                self.word.push(c);
            } else {
                self.in_quote = false;
            }
            self.colon = false;
            self.escape = false;
        } else if c == '"' {
            self.in_quote = true;
            self.active = true;
            self.colon = false;
            self.escape = false;
        } else if c == ' ' && self.escape {
            self.word.push(c);
            self.colon = false;
            self.escape = false;
        } else if is_blank_char(c) {
            self.end_word();
        } else {
            self.word.push(c);
            self.active = true;
            self.colon = c == ':';
            self.escape = c == '\\';
        }
    }
}

fn scan_text(text: &Vec<char>) -> (r: Scanner)
    ensures
        r.state() == end_word(scan_run(scan_init(), text@)),
{
    let mut sc = Scanner::new();
    let mut i: usize = 0;
    while i < text.len()
        invariant
            i <= text.len(),
            sc.state() == scan_run(scan_init(), text@.subrange(0, i as int)),
        decreases text.len() - i,
    {
        proof {
            lemma_scan_run_push(scan_init(), text@.subrange(0, i as int), text@[i as int]);
            assert(text@.subrange(0, i + 1) =~= text@.subrange(0, i as int).push(text@[i as int]));
        }
        sc.step(text[i]);
        i = i + 1;
    }
    proof {
        assert(text@.subrange(0, text@.len() as int) =~= text@);
    }
    sc.end_word();
    sc
}

/// A parsed make-style dependency file.
#[derive(Debug)]
pub struct DepParser {
    /// The prerequisites, in order of first occurrence, unique up to case.
    pub deps: Vec<String>,
    /// The target (empty where the file names none).
    pub target: String,
}

pub open spec fn strings_view(v: Seq<String>) -> Seq<Seq<char>> {
    v.map_values(|s: String| s@)
}

/// Keeps the first occurrence of each word up to case, in order.
fn dedup_words(raw: &Vec<Vec<char>>) -> (r: Vec<String>)
    ensures
        strings_view(r@) == dedup_lower(words_view(raw@)),
{
    let mut out: Vec<String> = Vec::new();
    let mut keys: Vec<String> = Vec::new();
    let mut i: usize = 0;
    while i < raw.len()
        invariant
            i <= raw.len(),
            out@.len() == keys@.len(),
            strings_view(out@) == dedup_lower(words_view(raw@.subrange(0, i as int))),
            forall|j: int| 0 <= j < keys@.len() ==> keys@[j]@ == lower_of(#[trigger] out@[j]@),
        decreases raw.len() - i,
    {
        let ghost prefix = words_view(raw@.subrange(0, i as int));
        let ghost next = words_view(raw@.subrange(0, i + 1));
        proof {
            assert(next.drop_last() =~= prefix);
            assert(next.last() == raw@[i as int]@);
        }
        let s = string_of(&raw[i]);
        let key = lowercase(s.as_str());
        let mut found = false;
        let mut j: usize = 0;
        while j < keys.len()
            invariant
                j <= keys@.len(),
                out@.len() == keys@.len(),
                key@ == lower_of(raw@[i as int]@),
                forall|k: int| 0 <= k < keys@.len() ==> keys@[k]@ == lower_of(#[trigger] out@[k]@),
                found <==> exists|k: int| 0 <= k < j && keys@[k]@ == key@,
            decreases keys.len() - j,
        {
            if keys[j] == key {
                found = true;
            }
            j = j + 1;
        }
        let ghost prev = strings_view(out@);
        proof {
            if found {
                let k = choose|k: int| 0 <= k < keys@.len() && keys@[k]@ == key@;
                assert(lower_of(prev[k]) == lower_of(raw@[i as int]@));
            } else {
                assert forall|k: int| 0 <= k < prev.len() implies #[trigger] lower_of(prev[k]) != lower_of(raw@[i as int]@) by {
                    assert(keys@[k]@ == lower_of(out@[k]@));
                }
            }
        }
        if !found {
            out.push(s);
            keys.push(key);
            proof {
                assert(strings_view(out@) =~= prev.push(raw@[i as int]@));
            }
        }
        i = i + 1;
    }
    proof {
        assert(raw@.subrange(0, raw@.len() as int) =~= raw@);
    }
    out
}

impl DepParser {
    /// Parses a dependency file.
    pub fn new(content: &str) -> (r: DepParser)
        ensures
            strings_view(r.deps@) == parsed_deps(content@),
            r.target@ == parsed_target(content@),
    {
        let mut p = DepParser { deps: Vec::new(), target: String::new() };
        p.parse(content);
        p
    }

    /// Replaces the parser's contents by the parse of `content`.
    pub fn parse(&mut self, content: &str)
        ensures
            strings_view(final(self).deps@) == parsed_deps(content@),
            final(self).target@ == parsed_target(content@),
    {
        let text = chars_of(content);
        let crlf: Vec<char> = vec!['\\', '\r', '\n'];
        let lf: Vec<char> = vec!['\\', '\n'];
        let space: Vec<char> = vec![' '];
        let once = replace_all(&text, &crlf, &space);
        let both = replace_all(&once, &lf, &space);
        proof {
            assert(crlf@ =~= seq!['\\', '\r', '\n']);
            assert(lf@ =~= seq!['\\', '\n']);
            assert(space@ =~= seq![' ']);
        }
        let sc = scan_text(&both);
        self.deps = dedup_words(&sc.raw);
        self.target = match sc.target {
            Some(t) => string_of(&t),
            None => String::new(),
        };
    }

    /// The file in rendered form: `target:` and, for each prerequisite in order,
    /// a space, a backslash, a newline and the prerequisite.
    pub fn get_dep_file_string(&self) -> (r: String)
        ensures
            r@ == rendered(self.target@, strings_view(self.deps@)),
    {
        let mut out: Vec<char> = chars_of(self.target.as_str());
        out.push(':');
        let mut i: usize = 0;
        while i < self.deps.len()
            invariant
                i <= self.deps@.len(),
                out@ == rendered(self.target@, strings_view(self.deps@.subrange(0, i as int))),
            decreases self.deps@.len() - i,
        {
            proof {
                assert(strings_view(self.deps@.subrange(0, i + 1)).drop_last()
                    =~= strings_view(self.deps@.subrange(0, i as int)));
            }
            out.push(' ');
            out.push('\\');
            out.push('\n');
            let d = chars_of(self.deps[i].as_str());
            let mut k: usize = 0;
            let ghost base = out@;
            while k < d.len()
                invariant
                    k <= d@.len(),
                    out@ == base + d@.subrange(0, k as int),
                decreases d@.len() - k,
            {
                out.push(d[k]);
                k = k + 1;
                proof {
                    assert(d@.subrange(0, k as int) =~= d@.subrange(0, k - 1).push(d@[k - 1]));
                }
            }
            proof {
                assert(d@.subrange(0, d@.len() as int) =~= d@);
                assert(base =~= rendered(self.target@, strings_view(self.deps@.subrange(0, i as int))) + seq![' ', '\\', '\n']);
            }
            i = i + 1;
        }
        proof {
            assert(self.deps@.subrange(0, self.deps@.len() as int) =~= self.deps@);
        }
        string_of(&out)
    }
}

/// Character `k` of `w` needs no quoting: no quote or newline, and the only
/// whitespace is a space escaped by the backslash before it.
pub open spec fn plain_char(w: Seq<char>, k: int) -> bool {
    &&& w[k] != '"'
    &&& w[k] != '\n'
    &&& is_blank(w[k]) ==> (w[k] == ' ' && k > 0 && w[k - 1] == '\\')
}

pub open spec fn plain_word(w: Seq<char>) -> bool {
    forall|k: int| 0 <= k < w.len() ==> plain_char(w, k)
}

/// A target that the rendered form gives back unchanged.
pub open spec fn renders_back_target(t: Seq<char>) -> bool {
    plain_word(t) && (t.len() > 0 ==> !is_blank(t.last()))
}

/// A prerequisite that the rendered form gives back unchanged.
pub open spec fn renders_back_dep(d: Seq<char>) -> bool {
    plain_word(d) && d.len() > 0 && d.last() != ':' && d.last() != '\\'
}

/// Whether no two elements are equal up to case.
pub open spec fn lower_distinct(s: Seq<Seq<char>>) -> bool {
    forall|i: int, j: int| 0 <= i < j < s.len() ==> lower_of(#[trigger] s[i]) != lower_of(#[trigger] s[j])
}

proof fn lemma_dedup_distinct(s: Seq<Seq<char>>)
    ensures
        lower_distinct(dedup_lower(s)),
    decreases s.len(),
{
    if s.len() > 0 {
        lemma_dedup_distinct(s.drop_last());
        let prev = dedup_lower(s.drop_last());
        if !seen_lower(prev, s.last()) {
            let cur = prev.push(s.last());
            assert forall|i: int, j: int| 0 <= i < j < cur.len() implies lower_of(#[trigger] cur[i]) != lower_of(#[trigger] cur[j]) by {
                if j == cur.len() - 1 {
                    assert(cur[i] == prev[i]);
                    if lower_of(prev[i]) == lower_of(s.last()) {
                        assert(seen_lower(prev, s.last()));
                    }
                } else {
                    assert(cur[i] == prev[i] && cur[j] == prev[j]);
                }
            }
        }
    }
}

proof fn lemma_dedup_of_distinct(s: Seq<Seq<char>>)
    requires
        lower_distinct(s),
    ensures
        dedup_lower(s) == s,
    decreases s.len(),
{
    if s.len() > 0 {
        let p = s.drop_last();
        assert forall|i: int, j: int| 0 <= i < j < p.len() implies lower_of(#[trigger] p[i]) != lower_of(#[trigger] p[j]) by {
            assert(p[i] == s[i] && p[j] == s[j]);
        }
        lemma_dedup_of_distinct(p);
        if seen_lower(p, s.last()) {
            let j = choose|j: int| 0 <= j < p.len() && #[trigger] lower_of(p[j]) == lower_of(s.last());
            assert(s[j] == p[j]);
            assert(lower_of(s[j]) != lower_of(s[s.len() - 1]));
        }
        assert(p.push(s.last()) =~= s);
    }
}

proof fn lemma_scan_word(st: ScanState, w: Seq<char>)
    requires
        !st.in_quote,
        st.word.len() == 0,
        !st.escape,
        !st.colon,
        plain_word(w),
    ensures
        scan_run(st, w) == (if w.len() == 0 {
            st
        } else {
            ScanState { word: w, active: true, colon: w.last() == ':', escape: w.last() == '\\', ..st }
        }),
    decreases w.len(),
{
    if w.len() == 0 {
        assert(scan_run(st, w) == st);
    } else {
        let w0 = w.drop_last();
        let c = w.last();
        assert forall|k: int| 0 <= k < w0.len() implies plain_char(w0, k) by {
            assert(plain_char(w, k));
            assert(w0[k] == w[k]);
            if k > 0 {
                assert(w0[k - 1] == w[k - 1]);
            }
        }
        lemma_scan_word(st, w0);
        lemma_scan_run_push(st, w0, c);
        assert(w0.push(c) =~= w);
        assert(plain_char(w, w.len() - 1));
        if w0.len() > 0 {
            assert(w[w.len() - 2] == w0.last());
        }
        let mid = scan_run(st, w0);
        assert(mid.word.push(c) =~= w);
    }
}

/// The rendered form with its continuations folded.
pub open spec fn flat_rendered(t: Seq<char>, deps: Seq<Seq<char>>) -> Seq<char>
    decreases deps.len(),
{
    if deps.len() == 0 {
        t.push(':')
    } else {
        flat_rendered(t, deps.drop_last()) + seq![' ', ' '] + deps.last()
    }
}

pub open spec fn no_newline(w: Seq<char>) -> bool {
    forall|k: int| 0 <= k < w.len() ==> w[k] != '\n' && w[k] != '\r'
}

proof fn lemma_rendered_no_cr(t: Seq<char>, deps: Seq<Seq<char>>)
    requires
        no_newline(t),
        forall|k: int| 0 <= k < deps.len() ==> no_newline(#[trigger] deps[k]),
    ensures
        forall|k: int| 0 <= k < rendered(t, deps).len() ==> rendered(t, deps)[k] != '\r',
    decreases deps.len(),
{
    let r = rendered(t, deps);
    if deps.len() > 0 {
        let d = deps.drop_last();
        assert forall|k: int| 0 <= k < d.len() implies no_newline(#[trigger] d[k]) by {
            assert(d[k] == deps[k]);
        }
        lemma_rendered_no_cr(t, d);
        let last = deps.last();
        assert(no_newline(deps[deps.len() - 1]));
        let r0 = rendered(t, d);
        let sep = seq![' ', '\\', '\n'];
        assert(r == r0 + sep + last);
        assert forall|k: int| 0 <= k < r.len() implies r[k] != '\r' by {
            if k < r0.len() {
                assert(r[k] == r0[k]);
            } else if k < r0.len() + 3 {
                assert(r[k] == sep[k - r0.len()]);
            } else {
                assert(r[k] == last[k - r0.len() - 3]);
            }
        }
    } else {
        assert(r == t.push(':'));
        assert forall|k: int| 0 <= k < r.len() implies r[k] != '\r' by {
            if k < t.len() {
                assert(r[k] == t[k]);
            }
        }
    }
}

proof fn lemma_fold_rendered(t: Seq<char>, deps: Seq<Seq<char>>)
    requires
        no_newline(t),
        forall|k: int| 0 <= k < deps.len() ==> no_newline(#[trigger] deps[k]),
    ensures
        replaced(rendered(t, deps), seq!['\\', '\n'], seq![' ']) == flat_rendered(t, deps),
    decreases deps.len(),
{
    let lf = seq!['\\', '\n'];
    let sp = seq![' '];
    if deps.len() == 0 {
        lemma_replaced_absent(t.push(':'), lf, sp);
    } else {
        let d0 = deps.drop_last();
        let d = deps.last();
        assert forall|k: int| 0 <= k < d0.len() implies no_newline(#[trigger] d0[k]) by {
            assert(d0[k] == deps[k]);
        }
        lemma_fold_rendered(t, d0);
        assert(no_newline(deps[deps.len() - 1]));
        let r0 = rendered(t, d0);
        let a = r0 + seq![' '];
        let b = lf + d;
        assert(rendered(t, deps) =~= a + b);
        assert forall|i: int| 0 <= i < a.len() && a.len() < i + lf.len() implies !occurs_at(a + b, lf, i) by {
            assert(i == a.len() - 1);
            assert((a + b)[i] == ' ');
            if occurs_at(a + b, lf, i) {
                assert((a + b).subrange(i, i + 2)[0] == ' ');
            }
        }
        lemma_replaced_concat(a, b, lf, sp);
        assert forall|i: int| 0 <= i < r0.len() && r0.len() < i + lf.len() implies !occurs_at(r0 + seq![' '], lf, i) by {
            if occurs_at(r0 + seq![' '], lf, i) {
                assert((r0 + seq![' ']).subrange(i, i + 2)[1] == ' ');
            }
        }
        lemma_replaced_concat(r0, seq![' '], lf, sp);
        assert(replaced(seq![' '], lf, sp) == seq![' ']);
        lemma_replaced_head(lf, d, sp);
        lemma_replaced_absent(d, lf, sp);
        assert(flat_rendered(t, deps) =~= (flat_rendered(t, d0) + seq![' ']) + (sp + d));
    }
}

/// The scanner's state after the folded rendered form (before its last word is closed).
pub open spec fn rendered_scan_state(t: Seq<char>, deps: Seq<Seq<char>>) -> ScanState {
    if deps.len() == 0 {
        ScanState {
            in_quote: false,
            active: true,
            word: t.push(':'),
            colon: true,
            escape: false,
            line_has_target: false,
            target: None,
            raw: Seq::empty(),
        }
    } else {
        ScanState {
            in_quote: false,
            active: true,
            word: deps.last(),
            colon: false,
            escape: false,
            line_has_target: true,
            target: Some(t),
            raw: deps.drop_last(),
        }
    }
}

proof fn lemma_scan_flat(t: Seq<char>, deps: Seq<Seq<char>>)
    requires
        renders_back_target(t),
        forall|k: int| 0 <= k < deps.len() ==> renders_back_dep(#[trigger] deps[k]),
    ensures
        scan_run(scan_init(), flat_rendered(t, deps)) == rendered_scan_state(t, deps),
    decreases deps.len(),
{
    if deps.len() == 0 {
        let w = t.push(':');
        assert forall|k: int| 0 <= k < w.len() implies plain_char(w, k) by {
            if k < t.len() {
                assert(plain_char(t, k));
                assert(w[k] == t[k]);
                if k > 0 {
                    assert(w[k - 1] == t[k - 1]);
                }
            }
        }
        lemma_scan_word(scan_init(), w);
        assert(w.last() == ':');
        assert(scan_run(scan_init(), w) == rendered_scan_state(t, deps));
    } else {
        let d0 = deps.drop_last();
        let d = deps.last();
        assert forall|k: int| 0 <= k < d0.len() implies renders_back_dep(#[trigger] d0[k]) by {
            assert(d0[k] == deps[k]);
        }
        lemma_scan_flat(t, d0);
        let z0 = rendered_scan_state(t, d0);
        let f0 = flat_rendered(t, d0);
        lemma_scan_run_push(scan_init(), f0, ' ');
        lemma_scan_run_push(scan_init(), f0.push(' '), ' ');
        let s1 = scan_step(z0, ' ');
        assert(s1 == end_word(z0));
        if d0.len() == 0 {
            assert(without_last(t.push(':')) =~= t);
            assert(trim_end(t) == t);
        } else {
            assert(d0.drop_last().push(d0.last()) =~= d0);
        }
        let s2 = scan_step(s1, ' ');
        assert(s2 == s1);
        assert(f0.push(' ').push(' ') =~= f0 + seq![' ', ' ']);
        assert(renders_back_dep(deps[deps.len() - 1]));
        assert(scan_run(scan_init(), f0 + seq![' ', ' ']) == s2);
        lemma_scan_word(s2, d);
        lemma_scan_run_append(scan_init(), f0 + seq![' ', ' '], d);
        assert(flat_rendered(t, deps) == (f0 + seq![' ', ' ']) + d);
        assert(s2.raw == d0);
        assert(s2.target == Some(t));
        assert(scan_run(s2, d) == rendered_scan_state(t, deps));
    }
}

/// Parsing the rendered form of a parse gives back the same target and
/// prerequisites, where the target and each prerequisite need no quoting
/// (no quote, newline or whitespace but backslash-escaped spaces), no
/// prerequisite is empty or ends in `:` or a backslash, and the target does
/// not end in whitespace.
pub proof fn lemma_parse_render_parse(text: Seq<char>)
    requires
        renders_back_target(parsed_target(text)),
        forall|k: int| 0 <= k < parsed_deps(text).len() ==> renders_back_dep(#[trigger] parsed_deps(text)[k]),
    ensures
        parsed_deps(rendered(parsed_target(text), parsed_deps(text))) == parsed_deps(text),
        parsed_target(rendered(parsed_target(text), parsed_deps(text))) == parsed_target(text),
{
    let t = parsed_target(text);
    let deps = parsed_deps(text);
    assert(no_newline(t)) by {
        assert forall|k: int| 0 <= k < t.len() implies t[k] != '\n' && t[k] != '\r' by {
            assert(plain_char(t, k));
        }
    }
    assert forall|k: int| 0 <= k < deps.len() implies no_newline(#[trigger] deps[k]) by {
        assert(renders_back_dep(deps[k]));
        assert forall|j: int| 0 <= j < deps[k].len() implies deps[k][j] != '\n' && deps[k][j] != '\r' by {
            assert(plain_char(deps[k], j));
        }
    }
    let r = rendered(t, deps);
    lemma_rendered_no_cr(t, deps);
    lemma_replaced_absent(r, seq!['\\', '\r', '\n'], seq![' ']);
    lemma_fold_rendered(t, deps);
    assert(folded(r) == flat_rendered(t, deps));
    lemma_scan_flat(t, deps);
    if deps.len() > 0 {
        assert(deps.drop_last().push(deps.last()) =~= deps);
    }
    assert(scan_file(r).raw == deps);
    lemma_dedup_distinct(scan_file(text).raw);
    lemma_dedup_of_distinct(deps);
}

} // verus!
