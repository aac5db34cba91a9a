use std::collections::HashMap;

use cade::cache::{Cache, ReadVerdict};
use cade::compile_handler::{
    object_fingerprint, resolve_tmpl, restore_base_dir, source_fingerprint, stream_entry, tokenize_base_dir, Action,
    Event, Failure, NoCacheHandler, Session,
};
use cade::compiler::{Compiler, CompilerArgs};
use cade::config::{CacheAccess, CacheConfig, FilesystemConfig, WrapperConfig};
use cade::dep_parser::DepParser;
use cade::hash::{hash, Hasher};
use cade::provider::{Category, FileCacheProvider, RedisProvider, WriteAction};

const EMPTY_BLAKE3: &str = "af1349b9f5f9a1a6a0404dea36dcc9499bcb25c9adc112b7cc9a93cae41f3262";

fn strings(v: &[&str]) -> Vec<String> {
    v.iter().map(|s| s.to_string()).collect()
}

/// Filesystem caches held in memory: one map from file path to bytes per provider.
struct Disk {
    cache: Cache,
    files: Vec<HashMap<String, Vec<u8>>>,
}

impl Disk {
    fn new(roots: &[&str]) -> Disk {
        let cache = roots
            .iter()
            .map(|r| {
                CacheConfig::Filesystem(FilesystemConfig {
                    path: r.to_string(),
                    access: CacheAccess::ReadWrite,
                    update_on_hit: true,
                    test_if_update_is_required: true,
                })
            })
            .collect();
        let config = WrapperConfig { base_dir: None, cache, debug: false, panic_on_cache_content_mismatch: false, log: None };
        Disk { cache: Cache::new(&config).unwrap(), files: roots.iter().map(|_| HashMap::new()).collect() }
    }

    fn path(&self, i: usize, cat: Category, key: &str) -> String {
        match &self.cache.providers[i] {
            cade::cache::Provider::Filesystem(p) => p.get_path(Some(cat), key),
            cade::cache::Provider::Redis(p) => p.get_key(Some(cat), key),
        }
    }

    fn get(&mut self, cat: Category, key: &str, pin: Option<usize>) -> Option<(Vec<u8>, usize)> {
        let mut st = self.cache.start_lookup(pin);
        while let Some(i) = self.cache.next_source(&st) {
            let path = self.path(i, cat, key);
            let data = self.files[i].get(&path).cloned();
            match self.cache.examine(&mut st, i, data.as_ref()) {
                ReadVerdict::Absent => {}
                ReadVerdict::Corrupt => {
                    self.files[i].remove(&path);
                }
                ReadVerdict::Hit(plain) => {
                    for t in self.cache.promotion_targets(i, st.faulty) {
                        let p = self.path(t.provider, cat, key);
                        if t.writes(t.check && self.files[t.provider].contains_key(&p)) {
                            self.files[t.provider].insert(p, data.clone().unwrap());
                        }
                    }
                    return Some((plain, i));
                }
            }
        }
        None
    }

    fn set(&mut self, cat: Category, key: &str, data: &Vec<u8>) {
        let (c, targets) = self.cache.set_entry(data);
        for t in targets {
            let p = self.path(t, cat, key);
            self.files[t].insert(p, c.clone());
        }
    }
}

fn parse(args: &[&str]) -> CompilerArgs {
    Compiler::new("gcc", None).unwrap().parse_args(&strings(args), &Vec::new(), "/w").unwrap()
}

/// One invocation driven through the session's steps, with files held in
/// `sources` and the compiler's products given. Returns the object bytes,
/// whether the compiler ran, and the source and object fingerprints.
fn invoke(disk: &mut Disk, sources: &mut HashMap<String, Vec<u8>>, produced_dep: &str, produced_obj: &[u8]) -> (Vec<u8>, bool, String, String) {
    let args = parse(&["-c", "src.c", "-o", "out.o", "-MF", "out.d"]);
    let mut session = Session::new(args);
    let mut compiled = false;
    let mut ev = Event::Start;
    loop {
        ev = match session.step(ev, &None) {
            Action::ReadSource(p) => Event::Source(sources.get(&p).cloned()),
            Action::Get(cat, key, pin) => Event::Got(disk.get(cat, &key, pin)),
            Action::WriteFile(p, d) => {
                sources.insert(p, d);
                Event::Written
            }
            Action::ReadPrerequisites(files) => Event::Prerequisites(files.iter().map(|f| sources.get(f).cloned()).collect()),
            Action::RunCompiler => {
                compiled = true;
                sources.insert("out.d".to_string(), produced_dep.as_bytes().to_vec());
                sources.insert("out.o".to_string(), produced_obj.to_vec());
                Event::Compiled(true, vec![], b"warning".to_vec())
            }
            Action::ReadDepFile(p) => Event::DepFile(sources.get(&p).map(|b| String::from_utf8(b.clone()).unwrap())),
            Action::ReadObject(p) => Event::Object(sources.get(&p).cloned()),
            Action::Store(cat, key, d) => {
                disk.set(cat, &key, &d);
                Event::Written
            }
            Action::Replay(_, _) => Event::Written,
            Action::Done => break,
            other => panic!("unexpected action {:?}", other),
        };
    }
    (sources["out.o"].clone(), compiled, session.source_hash.clone().unwrap(), session.total_hash.clone().unwrap())
}

fn files(v: &[(&str, &[u8])]) -> HashMap<String, Vec<u8>> {
    v.iter().map(|(k, b)| (k.to_string(), b.to_vec())).collect()
}

#[test]
fn fresh_build_writes_obj_and_dep_entries() {
    let mut disk = Disk::new(&["/c"]);
    let mut src = files(&[("src.c", b"int x;")]);
    let (obj, compiled, sfp, ffp) = invoke(&mut disk, &mut src, "out.o: src.c", b"\x7fELF-object");
    assert!(compiled);
    assert_eq!(obj, b"\x7fELF-object".to_vec());
    assert!(disk.files[0].contains_key(&format!("/c/obj/{}", ffp)));
    assert!(disk.files[0].contains_key(&format!("/c/dep/{}", sfp)));
    assert!(disk.files[0].contains_key(&format!("/c/stderr/{}", ffp)));
    assert!(!disk.files[0].contains_key(&format!("/c/stdout/{}", ffp)));
    assert_eq!(sfp.len(), 64);
    assert_eq!(ffp.len(), 64);
}

#[test]
fn replay_restores_the_object_without_compiling() {
    let mut disk = Disk::new(&["/c"]);
    let mut src = files(&[("src.c", b"int x;")]);
    let (built, _, _, _) = invoke(&mut disk, &mut src, "out.o: src.c", b"\x7fELF-object");
    src.remove("out.o");
    let (replayed, compiled, _, _) = invoke(&mut disk, &mut src, "unused", b"never produced");
    assert!(!compiled);
    assert_eq!(replayed, built);
}

#[test]
fn header_change_keeps_dep_key_and_changes_object_key() {
    let mut disk = Disk::new(&["/c"]);
    let mut src = files(&[("src.c", b"#include \"h.h\""), ("h.h", b"int a;")]);
    let (_, _, sfp1, ffp1) = invoke(&mut disk, &mut src, "out.o: src.c h.h", b"obj1");
    src.insert("h.h".to_string(), b"int b;".to_vec());
    let (obj, compiled, sfp2, ffp2) = invoke(&mut disk, &mut src, "out.o: src.c h.h", b"obj2");
    assert_eq!(sfp1, sfp2);
    assert_ne!(ffp1, ffp2);
    assert!(compiled);
    assert_eq!(obj, b"obj2".to_vec());
    assert!(disk.files[0].contains_key(&format!("/c/obj/{}", ffp2)));
    assert!(disk.files[0].contains_key(&format!("/c/stderr/{}", ffp2)));
}

#[test]
fn empty_source_is_cached_too() {
    let mut disk = Disk::new(&["/c"]);
    let mut src = files(&[("src.c", b"")]);
    let (_, compiled, sfp, _) = invoke(&mut disk, &mut src, "out.o: src.c", b"o");
    assert!(compiled);
    let args = parse(&["-c", "src.c", "-o", "out.o", "-MF", "out.d"]);
    assert_eq!(sfp, source_fingerprint(&args, &vec![]));
    let (_, again, _, _) = invoke(&mut disk, &mut src, "out.o: src.c", b"o");
    assert!(!again);
}

#[test]
fn incomplete_arguments_pass_through() {
    let mut session = Session::new(parse(&["-c", "a.c", "-o", "a.o"]));
    assert!(matches!(session.step(Event::Start, &None), Action::Passthrough));
}

#[test]
fn failed_compile_caches_nothing() {
    let mut session = Session::new(parse(&["-c", "s.c", "-o", "s.o", "-MF", "s.d"]));
    assert!(matches!(session.step(Event::Start, &None), Action::ReadSource(_)));
    assert!(matches!(session.step(Event::Source(Some(vec![1])), &None), Action::Get(Category::Dep, _, None)));
    assert!(matches!(session.step(Event::Got(None), &None), Action::RunCompiler));
    assert!(matches!(session.step(Event::Compiled(false, vec![], vec![]), &None), Action::CompilerFailed));
}

#[test]
fn unreadable_source_is_fatal() {
    let mut session = Session::new(parse(&["-c", "s.c", "-o", "s.o", "-MF", "s.d"]));
    session.step(Event::Start, &None);
    assert!(matches!(session.step(Event::Source(None), &None), Action::Fail(Failure::UnreadableSource)));
}

#[test]
fn replay_of_streams_is_pinned_to_the_object_provider() {
    let mut session = Session::new(parse(&["-c", "s.c", "-o", "s.o", "-MF", "s.d"]));
    session.step(Event::Start, &None);
    session.step(Event::Source(Some(b"x".to_vec())), &None);
    match session.step(Event::Got(Some((b"s.o: %%%BASE_DIR%%%/s.c".to_vec(), 0))), &Some("/b".to_string())) {
        Action::WriteFile(p, d) => {
            assert_eq!(p, "s.d");
            assert_eq!(d, b"s.o: /b/s.c".to_vec());
        }
        other => panic!("unexpected {:?}", other),
    }
    match session.step(Event::Written, &Some("/b".to_string())) {
        Action::ReadPrerequisites(f) => assert_eq!(f, vec!["/b/s.c".to_string()]),
        other => panic!("unexpected {:?}", other),
    }
    assert!(matches!(session.step(Event::Prerequisites(Some(vec![b"x".to_vec()])), &None), Action::Get(Category::Obj, _, None)));
    assert!(matches!(session.step(Event::Got(Some((b"obj".to_vec(), 1))), &None), Action::WriteFile(_, _)));
    assert!(matches!(session.step(Event::Written, &None), Action::Get(Category::Stdout, _, Some(1))));
    assert!(matches!(session.step(Event::Got(None), &None), Action::Get(Category::Stderr, _, Some(1))));
    assert!(matches!(session.step(Event::Got(None), &None), Action::Done));
}

#[test]
fn promotion_to_first_provider_reports_second() {
    let mut disk = Disk::new(&["/p1", "/p2"]);
    disk.files[1].insert("/p2/obj/fp".to_string(), cade::compression::compress(&b"o".to_vec()).unwrap());
    let (plain, hit) = disk.get(Category::Obj, "fp", None).unwrap();
    assert_eq!(plain, b"o".to_vec());
    assert_eq!(hit, 1);
    assert_eq!(disk.files[0].get("/p1/obj/fp"), disk.files[1].get("/p2/obj/fp"));
}

#[test]
fn self_heal_replaces_undecodable_entry() {
    let mut disk = Disk::new(&["/p1", "/p2"]);
    disk.files[0].insert("/p1/obj/fp".to_string(), vec![0xFF, 0xFF, 0xFF]);
    let good = cade::compression::compress(&b"valid".to_vec()).unwrap();
    disk.files[1].insert("/p2/obj/fp".to_string(), good.clone());
    assert_eq!(disk.get(Category::Obj, "fp", None), Some((b"valid".to_vec(), 1)));
    assert_eq!(disk.files[0].get("/p1/obj/fp"), Some(&good));
}

#[test]
fn integrity_mismatch_on_dep_entry() {
    let p = FileCacheProvider::new(0, "/c".to_string(), true, true, true, false);
    let old = b"first".to_vec();
    let new = b"second".to_vec();
    assert!(p.compares_existing(Some(Category::Dep)));
    assert_eq!(p.set_action(Some(Category::Dep), Some(&old), &new), WriteAction::Mismatch);
    assert_eq!(p.set_action(Some(Category::Dep), Some(&old), &old), WriteAction::Keep);
    assert_eq!(p.set_action(Some(Category::Obj), Some(&old), &new), WriteAction::Write);
    assert_eq!(p.set_action(Some(Category::Dep), None, &new), WriteAction::Write);
    let lax = FileCacheProvider::new(0, "/c".to_string(), true, false, true, false);
    assert_eq!(lax.set_action(Some(Category::Dep), Some(&old), &new), WriteAction::Write);
}

#[test]
fn remote_store_overwrites_like_files() {
    let r = RedisProvider::new(1, "redis://h".to_string(), true, true, Some(5), true);
    let old = b"a".to_vec();
    assert_eq!(r.set_action(Some(Category::Stdout), Some(&old), &b"b".to_vec()), WriteAction::Mismatch);
    assert_eq!(r.set_action(Some(Category::Stdout), Some(&old), &old), WriteAction::Keep);
    assert_eq!(r.set_action(Some(Category::Obj), Some(&old), &b"b".to_vec()), WriteAction::Write);
    let lax = RedisProvider::new(1, "redis://h".to_string(), true, false, None, true);
    assert_eq!(lax.set_action(Some(Category::Dep), Some(&old), &b"b".to_vec()), WriteAction::Write);
    assert_eq!(r.set_action(Some(Category::Obj), None, &b"b".to_vec()), WriteAction::Write);
    assert_eq!(r.read_result(vec![]), None);
    assert_eq!(r.read_result(vec![1]), Some(vec![1]));
}

#[test]
fn entry_locations() {
    let p = FileCacheProvider::new(0, "/c".to_string(), true, false, true, false);
    assert_eq!(p.get_path(Some(Category::Obj), "k"), "/c/obj/k");
    assert_eq!(p.get_path(None, "k"), "/c/k");
    let q = FileCacheProvider::new(0, "/c/".to_string(), true, false, true, false);
    assert_eq!(q.get_path(Some(Category::Stderr), "k"), "/c/stderr/k");
    let r = RedisProvider::new(1, "redis://h".to_string(), true, false, None, true);
    assert_eq!(r.get_key(Some(Category::Dep), "k"), "dep_k");
    assert_eq!(r.get_key(None, "k"), "k");
}

#[test]
fn empty_source_still_gets_a_fingerprint() {
    let args = parse(&[]);
    assert_eq!(source_fingerprint(&args, &vec![]), EMPTY_BLAKE3);
    assert_eq!(object_fingerprint(&args, &vec![], &vec![]), EMPTY_BLAKE3);
    let args2 = parse(&["-c", "e.c"]);
    assert_eq!(source_fingerprint(&args2, &vec![]), hash(b"-ce.c"));
}

#[test]
fn fingerprints_are_stable_and_cover_everything() {
    let args = parse(&["-c", "a.c", "-o", "a.o"]);
    let src = b"int x;".to_vec();
    let deps = vec![b"h1".to_vec(), b"h2".to_vec()];
    let f1 = object_fingerprint(&args, &src, &deps);
    let f2 = object_fingerprint(&args, &src, &deps);
    assert_eq!(f1, f2);
    assert_eq!(f1, hash(b"-ca.c-oa.oint x;h1h2"));
    assert_ne!(f1, object_fingerprint(&args, &src, &vec![b"h1".to_vec()]));
}

#[test]
fn hasher_digests_the_concatenation() {
    let mut h = Hasher::new();
    h.update(b"ab");
    h.update(b"c");
    assert_eq!(h.finalize(), hash(b"abc"));
    assert_eq!(Hasher::new().finalize(), EMPTY_BLAKE3);
}

#[test]
fn base_dir_token_round_trip() {
    let base = Some("/home/u/proj".to_string());
    let out = b"/home/u/proj/src/a.c:1: warning".to_vec();
    let cached = tokenize_base_dir(&out, &base);
    assert_eq!(cached, b"%%%BASE_DIR%%%/src/a.c:1: warning".to_vec());
    assert_eq!(restore_base_dir(&cached, &Some("/other".to_string())), b"/other/src/a.c:1: warning".to_vec());
    assert_eq!(restore_base_dir(&cached, &None), cached);
    assert_eq!(tokenize_base_dir(&out, &None), out);
}

#[test]
fn dep_entry_is_tokenized_render() {
    let dep = DepParser::new("/b/o.o: /b/s.c");
    assert_eq!(dep.cache_entry(&Some("/b".to_string())), b"%%%BASE_DIR%%%/o.o: \\\n%%%BASE_DIR%%%/s.c".to_vec());
}

#[test]
fn empty_streams_are_not_cached() {
    assert_eq!(stream_entry(&vec![], &None), None);
    assert_eq!(stream_entry(&b"warn".to_vec(), &None), Some(b"warn".to_vec()));
}

#[test]
fn log_path_template() {
    assert_eq!(resolve_tmpl("{obj_folder}/log-{obj_path}.txt", "build/a.o"), "build/log-build/a.o.txt");
    assert_eq!(resolve_tmpl("{obj_folder}x", "a.o"), "x");
    assert_eq!(resolve_tmpl("{obj_folder}", "/a.o"), "/");
}

#[test]
fn no_cache_handler_never_hits() {
    let h = NoCacheHandler;
    assert_eq!(h.cache_lookup(&strings(&["ls"])), None);
    assert_eq!(h.get_stdout_key(), None);
    assert_eq!(h.get_stderr_key(), None);
}

#[test]
fn config_defaults() {
    assert!(cade::config::bool_true_default());
    assert!(cade::config::update_on_hit_default());
    assert!(!cade::config::debug_default());
    assert!(!cade::config::panic_on_cache_content_mismatch_default());
}

#[test]
fn session_keys_follow_the_object_fingerprint() {
    let mut session = Session::new(parse(&["-c", "s.c", "-o", "s.o", "-MF", "s.d"]));
    assert_eq!(session.get_stdout_key(), None);
    session.step(Event::Start, &None);
    match session.step(Event::Source(Some(b"int x;".to_vec())), &None) {
        Action::Get(Category::Dep, k, None) => assert_eq!(k, hash(b"-cs.c-os.o-MFs.dint x;")),
        other => panic!("unexpected {:?}", other),
    }
    session.step(Event::Got(None), &None);
    assert!(matches!(session.step(Event::Compiled(true, b"out".to_vec(), vec![]), &None), Action::ReadDepFile(_)));
    session.step(Event::DepFile(Some("s.o: s.c".to_string())), &None);
    match session.step(Event::Prerequisites(Some(vec![b"int x;".to_vec()])), &None) {
        Action::Store(Category::Dep, k, d) => {
            assert_eq!(k, hash(b"-cs.c-os.o-MFs.dint x;"));
            assert_eq!(d, b"s.o: \\\ns.c".to_vec());
        }
        other => panic!("unexpected {:?}", other),
    }
    let ffp = hash(b"-cs.c-os.o-MFs.dint x;int x;");
    assert_eq!(session.get_stdout_key(), Some(ffp.clone()));
    assert_eq!(session.get_stderr_key(), Some(ffp.clone()));
    assert!(matches!(session.step(Event::Written, &None), Action::ReadObject(_)));
    assert!(matches!(session.step(Event::Object(Some(b"o".to_vec())), &None), Action::Store(Category::Obj, _, _)));
    match session.step(Event::Written, &None) {
        Action::Store(Category::Stdout, k, d) => {
            assert_eq!(k, ffp);
            assert_eq!(d, b"out".to_vec());
        }
        other => panic!("unexpected {:?}", other),
    }
    assert!(matches!(session.step(Event::Written, &None), Action::Done));
}
