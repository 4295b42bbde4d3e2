//! A value model of the directories the resolver searches: each existing
//! directory of interest is carried as its path together with the full paths
//! of the regular files directly inside it, in enumeration order. The
//! surrounding process reads the real filesystem into this model; everything
//! here then works on plain values.

use vstd::prelude::*;
use vstd::string::StrSliceExecFns;
use vstd::string::StringExecFns;

verus! {

use crate::text::lemma_spec_find;
use crate::text::push_char;
use crate::text::spec_find;
use crate::text::str_eq;

/// One existing directory: its path, and the full paths of the regular files
/// directly inside it, in filesystem enumeration order.
pub struct DirListing {
    pub path: String,
    pub files: Vec<String>,
}

/// Splits `s` on `:` with `cur` the segment under construction.
pub open spec fn spec_split_colon_from(s: Seq<char>, cur: Seq<char>) -> Seq<Seq<char>>
    decreases s.len(),
{
    if s.len() == 0 {
        seq![cur]
    } else if s[0] == ':' {
        seq![cur] + spec_split_colon_from(s.skip(1), Seq::<char>::empty())
    } else {
        spec_split_colon_from(s.skip(1), cur.push(s[0]))
    }
}

/// The `:`-separated segments of `s`, empty segments included.
pub open spec fn spec_split_colon(s: Seq<char>) -> Seq<Seq<char>> {
    spec_split_colon_from(s, Seq::<char>::empty())
}

/// Whether the model holds a directory whose path is `d`.
pub open spec fn spec_is_dir(fs: Seq<DirListing>, d: Seq<char>) -> bool {
    exists|i: int| 0 <= i < fs.len() && fs[i].path@ == d
}

/// The segments of `segs` that name directories of the model, in order.
pub open spec fn spec_filter_dirs(segs: Seq<Seq<char>>, fs: Seq<DirListing>) -> Seq<Seq<char>>
    decreases segs.len(),
{
    if segs.len() == 0 {
        Seq::<Seq<char>>::empty()
    } else if spec_is_dir(fs, segs[0]) {
        seq![segs[0]] + spec_filter_dirs(segs.skip(1), fs)
    } else {
        spec_filter_dirs(segs.skip(1), fs)
    }
}

/// The directories a search path names: its `:`-separated segments that exist
/// as directories, in order; an empty search path names none.
pub open spec fn spec_list_dirs(path: Seq<char>, fs: Seq<DirListing>) -> Seq<Seq<char>> {
    if path.len() == 0 {
        Seq::<Seq<char>>::empty()
    } else {
        spec_filter_dirs(spec_split_colon(path), fs)
    }
}

/// The `:`-separated segments of `input`, as owned strings.
fn split_colon(input: &str) -> (r: Vec<String>)
    ensures
        r.deep_view() == spec_split_colon(input@),
{
    let n: usize = input.unicode_len();
    let mut segs: Vec<String> = Vec::new();
    let mut cur = String::new();
    let mut i: usize = 0;
    proof {
        assert(input@.skip(0) =~= input@);
        assert(segs.deep_view() + spec_split_colon_from(input@, cur@) =~= spec_split_colon_from(
            input@,
            cur@,
        ));
    }
    loop
        invariant_except_break
            spec_split_colon(input@) == segs.deep_view() + spec_split_colon_from(
                input@.skip(i as int),
                cur@,
            ),
        invariant
            i <= n,
            n == input@.len(),
        ensures
            segs.deep_view() == spec_split_colon(input@),
        decreases n - i,
    {
        let ghost u = input@.skip(i as int);
        let ghost dv = segs.deep_view();
        let ghost cur0 = cur@;
        proof {
            assert(u.len() == n - i);
        }
        if i == n {
            segs.push(cur);
            proof {
                assert(segs.deep_view() =~= dv.push(cur0));
                assert(dv + seq![cur0] =~= dv.push(cur0));
            }
            break ;
        }
        let c = input.get_char(i);
        proof {
            assert(u[0] == input@[i as int]);
        }
        if c == ':' {
            segs.push(cur);
            cur = String::new();
            proof {
                assert(u.skip(1) =~= input@.skip(i + 1));
                assert(segs.deep_view() =~= dv.push(cur0));
                assert(dv + (seq![cur0] + spec_split_colon_from(u.skip(1), Seq::<char>::empty()))
                    =~= dv.push(cur0) + spec_split_colon_from(u.skip(1), Seq::<char>::empty()));
            }
        } else {
            push_char(&mut cur, c);
            proof {
                assert(u.skip(1) =~= input@.skip(i + 1));
            }
        }
        i = i + 1;
    }
    segs
}

/// Whether `d` names a directory of the model.
fn is_dir(fs: &Vec<DirListing>, d: &str) -> (r: bool)
    ensures
        r == spec_is_dir(fs@, d@),
{
    let mut i: usize = 0;
    while i < fs.len()
        invariant
            i <= fs@.len(),
            forall|j: int| 0 <= j < i ==> fs@[j].path@ != d@,
        decreases fs@.len() - i,
    {
        if str_eq(fs[i].path.as_str(), d) {
            return true;
        }
        i = i + 1;
    }
    false
}

/// The directories the search path `input` names, among those of the model
/// `fs`, in order of appearance; an empty search path names none.
pub fn list_dirs(input: &str, fs: &Vec<DirListing>) -> (r: Vec<String>)
    ensures
        r.deep_view() == spec_list_dirs(input@, fs@),
{
    let mut out: Vec<String> = Vec::new();
    if input.is_empty() {
        proof {
            assert(out.deep_view() =~= Seq::<Seq<char>>::empty());
        }
        return out;
    }
    let segs = split_colon(input);
    let n: usize = segs.len();
    let mut i: usize = 0;
    proof {
        assert(segs.deep_view().skip(0) =~= segs.deep_view());
        assert(out.deep_view() + spec_filter_dirs(segs.deep_view(), fs@) =~= spec_filter_dirs(
            segs.deep_view(),
            fs@,
        ));
    }
    while i < n
        invariant
            i <= n,
            n == segs@.len(),
            spec_list_dirs(input@, fs@) == out.deep_view() + spec_filter_dirs(
                segs.deep_view().skip(i as int),
                fs@,
            ),
        decreases n - i,
    {
        let ghost u = segs.deep_view().skip(i as int);
        let ghost dv = out.deep_view();
        proof {
            assert(u[0] == segs@[i as int]@);
            assert(u.skip(1) =~= segs.deep_view().skip(i + 1));
        }
        if is_dir(fs, segs[i].as_str()) {
            let s = segs[i].clone();
            out.push(s);
            proof {
                assert(out.deep_view() =~= dv.push(u[0]));
                assert(dv + (seq![u[0]] + spec_filter_dirs(u.skip(1), fs@)) =~= dv.push(u[0])
                    + spec_filter_dirs(u.skip(1), fs@));
            }
        }
        i = i + 1;
    }
    proof {
        assert(segs.deep_view().skip(n as int) =~= Seq::<Seq<char>>::empty());
        assert(out.deep_view() + Seq::<Seq<char>>::empty() =~= out.deep_view());
    }
    out
}

/// The file name of `p`: what follows its last `/`, or all of `p` when it has
/// none.
pub open spec fn spec_basename(p: Seq<char>) -> Seq<char>
    decreases p.len(),
{
    match spec_find(p, '/') {
        None => p,
        Some(i) => if 0 <= i < p.len() {
            spec_basename(p.skip(i + 1))
        } else {
            p
        },
    }
}

/// The file name of `path`, as an owned string.
pub fn basename(path: &str) -> (r: String)
    ensures
        r@ == spec_basename(path@),
{
    let n: usize = path.unicode_len();
    let mut start: usize = 0;
    let mut i: usize = 0;
    proof {
        assert(path@.skip(0) =~= path@);
    }
    while i < n
        invariant
            start <= i <= n,
            n == path@.len(),
            spec_basename(path@) == spec_basename(path@.skip(start as int)),
            forall|j: int| start <= j < i ==> path@[j] != '/',
        decreases n - i,
    {
        if path.get_char(i) == '/' {
            proof {
                lemma_basename_past_slash(path@, start as int, i as int);
            }
            start = i + 1;
        }
        i = i + 1;
    }
    proof {
        let u = path@.skip(start as int);
        lemma_spec_find(u, '/');
        match spec_find(u, '/') {
            None => {},
            Some(k) => {
                assert(u[k] == path@[k + start]);
            },
        }
        assert(u =~= path@.subrange(start as int, n as int));
    }
    String::from_str(path.substring_char(start, n))
}

/// Whether the file name of `path` equals `name`.
pub fn filename(name: &str, path: &str) -> (r: bool)
    ensures
        r == (spec_basename(path@) == name@),
{
    let b = basename(path);
    str_eq(b.as_str(), name)
}

/// Skipping past a first slash does not change a basename.
proof fn lemma_basename_past_slash(p: Seq<char>, start: int, i: int)
    requires
        0 <= start <= i < p.len(),
        forall|j: int| start <= j < i ==> p[j] != '/',
        p[i] == '/',
    ensures
        spec_basename(p.skip(start)) == spec_basename(p.skip(i + 1)),
{
    let u = p.skip(start);
    lemma_spec_find(u, '/');
    assert(u[i - start] == p[i as int]);
    match spec_find(u, '/') {
        None => {
            assert(u[i - start] != '/');
        },
        Some(k) => {
            assert(forall|j: int| start <= j < i ==> u[j - start] == p[j]);
            assert(u[k] == '/');
            if k < i - start {
                assert(u[k] == p[k + start]);
            }
            if k > i - start {
                assert(u[i - start] != '/');
            }
            assert(k == i - start);
            assert(u.skip(k + 1) =~= p.skip(i + 1));
        },
    }
}

/// The files of the first model directory whose path is `d`, if any.
pub open spec fn spec_lookup_files(fs: Seq<DirListing>, d: Seq<char>) -> Option<Seq<Seq<char>>>
    decreases fs.len(),
{
    if fs.len() == 0 {
        None
    } else if fs[0].path@ == d {
        Some(fs[0].files.deep_view())
    } else {
        spec_lookup_files(fs.skip(1), d)
    }
}

/// The first model directory whose path is `d`, if any.
pub fn lookup_dir<'a>(fs: &'a Vec<DirListing>, d: &str) -> (r: Option<&'a DirListing>)
    ensures
        match r {
            None => spec_lookup_files(fs@, d@) is None,
            Some(l) => spec_lookup_files(fs@, d@) == Some(l.files.deep_view()),
        },
{
    let mut i: usize = 0;
    proof {
        assert(fs@.skip(0) =~= fs@);
    }
    while i < fs.len()
        invariant
            i <= fs@.len(),
            spec_lookup_files(fs@, d@) == spec_lookup_files(fs@.skip(i as int), d@),
        decreases fs@.len() - i,
    {
        let ghost u = fs@.skip(i as int);
        proof {
            assert(u[0] == fs@[i as int]);
            assert(u.skip(1) =~= fs@.skip(i + 1));
        }
        if str_eq(fs[i].path.as_str(), d) {
            return Some(&fs[i]);
        }
        i = i + 1;
    }
    proof {
        assert(fs@.skip(fs@.len() as int).len() == 0);
    }
    None
}

/// The first file of `files` whose file name is `name`, if any.
pub open spec fn spec_find_in_files(files: Seq<Seq<char>>, name: Seq<char>) -> Option<Seq<char>>
    decreases files.len(),
{
    if files.len() == 0 {
        None
    } else if spec_basename(files[0]) == name {
        Some(files[0])
    } else {
        spec_find_in_files(files.skip(1), name)
    }
}

/// The first file of `l` whose file name is `name`, if any, as an owned path.
pub fn find_file(l: &DirListing, name: &str) -> (r: Option<String>)
    ensures
        crate::parser::opt_view(r) == spec_find_in_files(l.files.deep_view(), name@),
{
    let n: usize = l.files.len();
    let mut i: usize = 0;
    proof {
        assert(l.files.deep_view().skip(0) =~= l.files.deep_view());
    }
    while i < n
        invariant
            i <= n,
            n == l.files@.len(),
            spec_find_in_files(l.files.deep_view(), name@) == spec_find_in_files(
                l.files.deep_view().skip(i as int),
                name@,
            ),
        decreases n - i,
    {
        let ghost u = l.files.deep_view().skip(i as int);
        proof {
            assert(u[0] == l.files@[i as int]@);
            assert(u.skip(1) =~= l.files.deep_view().skip(i + 1));
        }
        if filename(name, l.files[i].as_str()) {
            return Some(l.files[i].clone());
        }
        i = i + 1;
    }
    proof {
        assert(l.files.deep_view().skip(n as int).len() == 0);
    }
    None
}

/// The file names of each path in `files`, in order.
pub open spec fn spec_basenames(files: Seq<Seq<char>>) -> Seq<Seq<char>>
    decreases files.len(),
{
    if files.len() == 0 {
        Seq::<Seq<char>>::empty()
    } else {
        seq![spec_basename(files[0])] + spec_basenames(files.skip(1))
    }
}

/// The file names found in each directory of `dirs`, in order; a directory
/// the model cannot list contributes nothing.
pub open spec fn spec_names_in_dirs(
    dirs: Seq<Seq<char>>,
    fs: Seq<DirListing>,
) -> Seq<Seq<char>>
    decreases dirs.len(),
{
    if dirs.len() == 0 {
        Seq::<Seq<char>>::empty()
    } else {
        let here = match spec_lookup_files(fs, dirs[0]) {
            None => Seq::<Seq<char>>::empty(),
            Some(files) => spec_basenames(files),
        };
        here + spec_names_in_dirs(dirs.skip(1), fs)
    }
}

/// Every file name reachable through the search path `path`, in directory
/// order and within one directory in enumeration order.
pub open spec fn spec_all_executable_names(path: Seq<char>, fs: Seq<DirListing>) -> Seq<Seq<char>> {
    spec_names_in_dirs(spec_list_dirs(path, fs), fs)
}

/// The file names of every file in one directory, appended to `out`.
fn push_basenames(out: &mut Vec<String>, l: &DirListing)
    ensures
        final(out).deep_view() == old(out).deep_view() + spec_basenames(l.files.deep_view()),
{
    let ghost dv0 = old(out).deep_view();
    let ghost fv = l.files.deep_view();
    let n: usize = l.files.len();
    let mut j: usize = 0;
    proof {
        assert(fv.skip(0) =~= fv);
    }
    while j < n
        invariant
            j <= n,
            n == l.files@.len(),
            fv == l.files.deep_view(),
            dv0 + spec_basenames(fv) == out.deep_view() + spec_basenames(fv.skip(j as int)),
        decreases n - j,
    {
        let ghost dv = out.deep_view();
        let ghost u = fv.skip(j as int);
        proof {
            assert(u[0] == fv[j as int]);
            assert(fv[j as int] == l.files@[j as int]@);
            assert(u.skip(1) =~= fv.skip(j + 1));
        }
        let b = basename(l.files[j].as_str());
        out.push(b);
        proof {
            assert(out.deep_view() =~= dv.push(spec_basename(u[0])));
            assert(dv + (seq![spec_basename(u[0])] + spec_basenames(u.skip(1))) =~= dv.push(
                spec_basename(u[0]),
            ) + spec_basenames(u.skip(1)));
        }
        j = j + 1;
    }
    proof {
        assert(fv.skip(n as int).len() == 0);
        assert(out.deep_view() + Seq::<Seq<char>>::empty() =~= out.deep_view());
    }
}

/// Every file name reachable through the `:`-separated search path `input`,
/// against the directory model `fs`.
pub fn all_executable_names(input: &str, fs: &Vec<DirListing>) -> (r: Vec<String>)
    ensures
        r.deep_view() == spec_all_executable_names(input@, fs@),
{
    let dirs = list_dirs(input, fs);
    let ghost dd = dirs.deep_view();
    let mut out: Vec<String> = Vec::new();
    let mut i: usize = 0;
    proof {
        assert(dd.skip(0) =~= dd);
        assert(out.deep_view() =~= Seq::<Seq<char>>::empty());
        assert(Seq::<Seq<char>>::empty() + spec_names_in_dirs(dd, fs@) =~= spec_names_in_dirs(
            dd,
            fs@,
        ));
    }
    while i < dirs.len()
        invariant
            i <= dd.len(),
            dd == dirs.deep_view(),
            dd == spec_list_dirs(input@, fs@),
            spec_all_executable_names(input@, fs@) == out.deep_view() + spec_names_in_dirs(
                dd.skip(i as int),
                fs@,
            ),
        decreases dd.len() - i,
    {
        let ghost dv = out.deep_view();
        proof {
            assert(dd.skip(i as int)[0] == dd[i as int]);
            assert(dd.skip(i as int).skip(1) =~= dd.skip(i + 1));
        }
        match lookup_dir(fs, dirs[i].as_str()) {
            None => {
                proof {
                    assert(dv + (Seq::<Seq<char>>::empty() + spec_names_in_dirs(
                        dd.skip(i + 1),
                        fs@,
                    )) =~= dv + spec_names_in_dirs(dd.skip(i + 1), fs@));
                }
            },
            Some(l) => {
                push_basenames(&mut out, l);
                proof {
                    assert(dv + (spec_basenames(l.files.deep_view()) + spec_names_in_dirs(
                        dd.skip(i + 1),
                        fs@,
                    )) =~= (dv + spec_basenames(l.files.deep_view())) + spec_names_in_dirs(
                        dd.skip(i + 1),
                        fs@,
                    ));
                }
            },
        }
        i = i + 1;
    }
    proof {
        assert(dd.skip(dd.len() as int).len() == 0);
        assert(out.deep_view() + Seq::<Seq<char>>::empty() =~= out.deep_view());
    }
    out
}

} // verus!
