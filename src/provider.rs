//! Cache providers: where an entry lives in each kind of backing store, and
//! what writing over an existing entry does.

use vstd::prelude::*;
use crate::text::{chars_of, string_of};

verus! {

/// The closed set of entry categories.
#[derive(Clone, Copy, PartialEq, Eq, Debug)]
pub enum Category {
    Obj,
    Dep,
    Stdout,
    Stderr,
}

pub open spec fn category_name(c: Category) -> Seq<char> {
    match c {
        Category::Obj => seq!['o', 'b', 'j'],
        Category::Dep => seq!['d', 'e', 'p'],
        Category::Stdout => seq!['s', 't', 'd', 'o', 'u', 't'],
        Category::Stderr => seq!['s', 't', 'd', 'e', 'r', 'r'],
    }
}

impl Category {
    /// The category's name as it appears in paths and keys.
    pub fn name(&self) -> (r: Vec<char>)
        ensures
            r@ == category_name(*self),
    {
        let r = match self {
            Category::Obj => vec!['o', 'b', 'j'],
            Category::Dep => vec!['d', 'e', 'p'],
            Category::Stdout => vec!['s', 't', 'd', 'o', 'u', 't'],
            Category::Stderr => vec!['s', 't', 'd', 'e', 'r', 'r'],
        };
        assert(r@ =~= category_name(*self));
        r
    }
}

/// `a/b`: one separator between the two, none added after an empty `a` or a trailing `/`.
pub open spec fn path_join(a: Seq<char>, b: Seq<char>) -> Seq<char> {
    if a.len() == 0 {
        b
    } else if a.last() == '/' {
        a + b
    } else {
        a + seq!['/'] + b
    }
}

/// The file of an entry: `<root>/<category>/<key>`, or `<root>/<key>` without a category.
pub open spec fn entry_path(root: Seq<char>, category: Option<Category>, key: Seq<char>) -> Seq<char> {
    match category {
        Some(c) => path_join(path_join(root, category_name(c)), key),
        None => path_join(root, key),
    }
}

/// The key of an entry in a key-value store: `<category>_<key>`, or `<key>`.
pub open spec fn store_key(category: Option<Category>, key: Seq<char>) -> Seq<char> {
    match category {
        Some(c) => category_name(c) + seq!['_'] + key,
        None => key,
    }
}

fn push_all(out: &mut Vec<char>, s: &Vec<char>)
    ensures
        final(out)@ == old(out)@ + s@,
{
    let mut i: usize = 0;
    let ghost start = out@;
    while i < s.len()
        invariant
            i <= s@.len(),
            out@ == start + s@.subrange(0, i as int),
        decreases s@.len() - i,
    {
        out.push(s[i]);
        i = i + 1;
        proof {
            assert(s@.subrange(0, i as int) =~= s@.subrange(0, i - 1).push(s@[i - 1]));
        }
    }
    proof {
        assert(s@.subrange(0, s@.len() as int) =~= s@);
    }
}

fn join_chars(a: &Vec<char>, b: &Vec<char>) -> (r: Vec<char>)
    ensures
        r@ == path_join(a@, b@),
{
    let mut out: Vec<char> = Vec::new();
    push_all(&mut out, a);
    if a.len() > 0 && a[a.len() - 1] != '/' {
        out.push('/');
    }
    push_all(&mut out, b);
    proof {
        if a@.len() == 0 {
            assert(out@ =~= b@);
        } else if a@.last() == '/' {
            assert(out@ =~= a@ + b@);
        } else {
            assert(out@ =~= a@ + seq!['/'] + b@);
        }
    }
    out
}

pub fn bytes_equal(a: &Vec<u8>, b: &Vec<u8>) -> (r: bool)
    ensures
        r == (a@ == b@),
{
    if a.len() != b.len() {
        return false;
    }
    let mut i: usize = 0;
    while i < a.len()
        invariant
            a@.len() == b@.len(),
            i <= a@.len(),
            forall|k: int| 0 <= k < i ==> a@[k] == b@[k],
        decreases a@.len() - i,
    {
        if a[i] != b[i] {
            return false;
        }
        i = i + 1;
    }
    assert(a@ =~= b@);
    true
}

/// What a write over an entry comes to.
#[derive(Clone, Copy, PartialEq, Eq, Debug)]
pub enum WriteAction {
    /// Write the value.
    Write,
    /// Leave the stored value (it is equal, or the store does not overwrite).
    Keep,
    /// A different value is stored under a key whose content must be stable: fatal.
    Mismatch,
}

/// Whether the entry's content must not change when written again.
pub open spec fn checks_content(check: bool, category: Option<Category>) -> bool {
    check && category != Some(Category::Obj)
}

/// The per-provider flags that the tiered cache consults.
pub struct Policy {
    pub id: usize,
    pub update: bool,
    pub test_if_update_is_required: bool,
}

/// The flags and identity every provider has.
pub trait CacheProvider {
    spec fn policy(&self) -> Policy;

    fn get_id(&self) -> (r: usize)
        ensures
            r == self.policy().id,
    ;

    fn update(&self) -> (r: bool)
        ensures
            r == self.policy().update,
    ;

    fn test_if_update_is_required(&self) -> (r: bool)
        ensures
            r == self.policy().test_if_update_is_required,
    ;
}

/// A provider that keeps entries as files under a root directory.
#[derive(Debug)]
pub struct FileCacheProvider {
    pub id: usize,
    pub path: String,
    pub update: bool,
    pub panic_on_cache_content_mismatch: bool,
    pub test_if_update_is_required: bool,
    pub debug: bool,
}

impl FileCacheProvider {
    pub fn new(
        id: usize,
        path: String,
        update: bool,
        panic_on_cache_content_mismatch: bool,
        test_if_update_is_required: bool,
        debug: bool,
    ) -> (r: FileCacheProvider)
        ensures
            r.id == id,
            r.path == path,
            r.update == update,
            r.panic_on_cache_content_mismatch == panic_on_cache_content_mismatch,
            r.test_if_update_is_required == test_if_update_is_required,
            r.debug == debug,
    {
        FileCacheProvider { id, path, update, panic_on_cache_content_mismatch, test_if_update_is_required, debug }
    }

    /// The file that holds an entry.
    pub fn get_path(&self, category: Option<Category>, key: &str) -> (r: String)
        ensures
            r@ == entry_path(self.path@, category, key@),
    {
        let root = chars_of(self.path.as_str());
        let k = chars_of(key);
        let p = match category {
            Some(c) => {
                let dir = join_chars(&root, &c.name());
                join_chars(&dir, &k)
            },
            None => join_chars(&root, &k),
        };
        string_of(&p)
    }

    /// Whether a write must first read the existing file to compare it.
    pub fn compares_existing(&self, category: Option<Category>) -> (r: bool)
        ensures
            r == checks_content(self.panic_on_cache_content_mismatch, category),
    {
        self.panic_on_cache_content_mismatch && !matches!(category, Some(Category::Obj))
    }

    /// A write of `value` where the file holds `existing` (`None`: no file, or
    /// it was not read): with the content check on, an equal file is kept and a
    /// different one is a mismatch; otherwise the file is overwritten.
    pub fn set_action(&self, category: Option<Category>, existing: Option<&Vec<u8>>, value: &Vec<u8>) -> (r: WriteAction)
        ensures
            r == (match existing {
                Some(e) if checks_content(self.panic_on_cache_content_mismatch, category) =>
                    if e@ == value@ { WriteAction::Keep } else { WriteAction::Mismatch },
                _ => WriteAction::Write,
            }),
    {
        match existing {
            Some(e) => {
                if self.compares_existing(category) {
                    if bytes_equal(e, value) {
                        WriteAction::Keep
                    } else {
                        WriteAction::Mismatch
                    }
                } else {
                    WriteAction::Write
                }
            },
            None => WriteAction::Write,
        }
    }
}

impl CacheProvider for FileCacheProvider {
    open spec fn policy(&self) -> Policy {
        Policy { id: self.id, update: self.update, test_if_update_is_required: self.test_if_update_is_required }
    }

    fn get_id(&self) -> (r: usize) {
        self.id
    }

    fn update(&self) -> (r: bool) {
        self.update
    }

    fn test_if_update_is_required(&self) -> (r: bool) {
        self.test_if_update_is_required
    }
}

/// A provider backed by a remote key-value store.
#[derive(Debug)]
pub struct RedisProvider {
    pub id: usize,
    pub url: String,
    pub update: bool,
    pub panic_on_cache_content_mismatch: bool,
    pub expire: Option<u32>,
    pub test_if_update_is_required: bool,
}

impl RedisProvider {
    pub fn new(
        id: usize,
        url: String,
        update: bool,
        panic_on_cache_content_mismatch: bool,
        expire: Option<u32>,
        test_if_update_is_required: bool,
    ) -> (r: RedisProvider)
        ensures
            r.id == id,
            r.url == url,
            r.update == update,
            r.panic_on_cache_content_mismatch == panic_on_cache_content_mismatch,
            r.expire == expire,
            r.test_if_update_is_required == test_if_update_is_required,
    {
        RedisProvider { id, url, update, panic_on_cache_content_mismatch, expire, test_if_update_is_required }
    }

    /// The store key of an entry.
    pub fn get_key(&self, category: Option<Category>, key: &str) -> (r: String)
        ensures
            r@ == store_key(category, key@),
    {
        let k = chars_of(key);
        match category {
            Some(c) => {
                let mut out = c.name();
                out.push('_');
                push_all(&mut out, &k);
                string_of(&out)
            },
            None => string_of(&k),
        }
    }

    /// A write of `value` where the store holds `existing` under the key, as for
    /// files: with the content check on (and not for `obj`), an equal value is
    /// kept and a different one is a mismatch; otherwise the value is written.
    pub fn set_action(&self, category: Option<Category>, existing: Option<&Vec<u8>>, value: &Vec<u8>) -> (r: WriteAction)
        ensures
            r == (match existing {
                Some(e) if checks_content(self.panic_on_cache_content_mismatch, category) =>
                    if e@ == value@ { WriteAction::Keep } else { WriteAction::Mismatch },
                _ => WriteAction::Write,
            }),
    {
        match existing {
            Some(e) => {
                if self.compares_existing(category) {
                    if bytes_equal(e, value) {
                        WriteAction::Keep
                    } else {
                        WriteAction::Mismatch
                    }
                } else {
                    WriteAction::Write
                }
            },
            None => WriteAction::Write,
        }
    }

    /// Whether a write must first read the stored value to compare it.
    pub fn compares_existing(&self, category: Option<Category>) -> (r: bool)
        ensures
            r == checks_content(self.panic_on_cache_content_mismatch, category),
    {
        self.panic_on_cache_content_mismatch && !matches!(category, Some(Category::Obj))
    }

    /// What a read that returned `data` means: an empty value is no entry.
    pub fn read_result(&self, data: Vec<u8>) -> (r: Option<Vec<u8>>)
        ensures
            data@.len() == 0 ==> r is None,
            data@.len() > 0 ==> r == Some(data),
    {
        if data.len() == 0 {
            None
        } else {
            Some(data)
        }
    }
}

impl CacheProvider for RedisProvider {
    open spec fn policy(&self) -> Policy {
        Policy { id: self.id, update: self.update, test_if_update_is_required: self.test_if_update_is_required }
    }

    fn get_id(&self) -> (r: usize) {
        self.id
    }

    fn update(&self) -> (r: bool) {
        self.update
    }

    fn test_if_update_is_required(&self) -> (r: bool) {
        self.test_if_update_is_required
    }
}

} // verus!
