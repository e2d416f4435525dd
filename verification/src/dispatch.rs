//! The dispatcher: from an invoked name and the resolved table to the
//! executable to run and the argument vector and environment to hand it.
//!
//! A name found in the table must be found inside its configured directory;
//! a name not in the table falls back to a search of the inherited `PATH`,
//! from which every entry pointing into the shim-install directory is first
//! removed, so that the fallback can never re-select a shim and recurse.

use vstd::prelude::*;
use vstd::string::StrSliceExecFns;
use vstd::string::StringExecFns;

use crate::cfg::ResolvedConfig;
use crate::table::str_views;

verus! {

/// Why a dispatch could not pick an executable.
pub enum DispatchError {
    /// The name was configured, but the configured directory holds no such
    /// executable.
    NotInDir { name: String, dir: String },
    /// The name was not configured and the filtered `PATH` search found
    /// nothing.
    NotOnPath { name: String },
}

impl DispatchError {
    /// The human-readable diagnostic for this fatal resolution failure.
    pub fn message(&self) -> (r: String)
        ensures
            match self {
                DispatchError::NotInDir { name, dir } => r@ == "Cannot find binary "@ + name@
                    + " in configured directory: "@ + dir@,
                DispatchError::NotOnPath { name } => r@ == "Cannot find binary in $PATH: "@
                    + name@,
            },
    {
        match self {
            DispatchError::NotInDir { name, dir } => {
                let mut s = String::from_str("Cannot find binary ");
                s.append(name.as_str());
                s.append(" in configured directory: ");
                s.append(dir.as_str());
                s
            },
            DispatchError::NotOnPath { name } => {
                let mut s = String::from_str("Cannot find binary in $PATH: ");
                s.append(name.as_str());
                s
            },
        }
    }
}

/// A `PATH`-style string split at every colon. The empty string holds one
/// empty entry; a colon separates two (possibly empty) entries.
pub open spec fn split_colon(s: Seq<char>) -> Seq<Seq<char>>
    decreases s.len(),
{
    if s.len() == 0 {
        seq![Seq::<char>::empty()]
    } else if s[0] == ':' {
        seq![Seq::<char>::empty()] + split_colon(s.drop_first())
    } else {
        let rest = split_colon(s.drop_first());
        seq![seq![s[0]] + rest[0]] + rest.drop_first()
    }
}

/// A split is never empty.
pub proof fn lemma_split_len(s: Seq<char>)
    ensures
        split_colon(s).len() >= 1,
    decreases s.len(),
{
    if s.len() == 0 {
    } else {
        lemma_split_len(s.drop_first());
    }
}

/// A colon-free string splits into just itself.
pub proof fn lemma_split_no_colon(s: Seq<char>)
    requires
        forall|i: int| 0 <= i < s.len() ==> s[i] != ':',
    ensures
        split_colon(s) == seq![s],
    decreases s.len(),
{
    if s.len() == 0 {
        assert(split_colon(s) =~~= seq![s]);
    } else {
        let tail = s.drop_first();
        assert(forall|i: int| 0 <= i < tail.len() ==> tail[i] == s[i + 1]);
        lemma_split_no_colon(tail);
        assert(seq![s[0]] + tail =~= s);
        assert(split_colon(s) =~~= seq![s]);
    }
}

/// Splitting at the first colon: everything before it is the first entry,
/// and the rest splits on its own.
pub proof fn lemma_split_at_colon(s: Seq<char>, j: int)
    requires
        0 <= j < s.len(),
        s[j] == ':',
        forall|m: int| 0 <= m < j ==> s[m] != ':',
    ensures
        split_colon(s) == seq![s.subrange(0, j)] + split_colon(
            s.subrange(j + 1, s.len() as int),
        ),
    decreases j,
{
    if j == 0 {
        assert(s.subrange(0, 0) =~= Seq::<char>::empty());
        assert(s.drop_first() =~= s.subrange(1, s.len() as int));
        assert(split_colon(s) =~~= seq![s.subrange(0, 0)] + split_colon(
            s.subrange(1, s.len() as int),
        ));
    } else {
        let tail = s.drop_first();
        assert(forall|i: int| 0 <= i < tail.len() ==> tail[i] == s[i + 1]);
        lemma_split_at_colon(tail, j - 1);
        assert(tail.subrange(0, j - 1) =~= s.subrange(1, j));
        assert(tail.subrange(j, tail.len() as int) =~= s.subrange(j + 1, s.len() as int));
        let rest = split_colon(tail);
        lemma_split_len(s.subrange(j + 1, s.len() as int));
        assert(rest == seq![s.subrange(1, j)] + split_colon(s.subrange(j + 1, s.len() as int)));
        assert(rest[0] == s.subrange(1, j));
        assert(rest.drop_first() =~= split_colon(s.subrange(j + 1, s.len() as int)));
        assert(seq![s[0]] + s.subrange(1, j) =~= s.subrange(0, j));
        assert(split_colon(s) =~~= seq![s.subrange(0, j)] + split_colon(
            s.subrange(j + 1, s.len() as int),
        ));
    }
}

/// Split a `PATH`-style string at every colon.
pub fn split_search_path(s: &String) -> (r: Vec<String>)
    ensures
        str_views(r@) == split_colon(s@),
{
    let len = s.as_str().unicode_len();
    let mut out: Vec<String> = Vec::new();
    let mut start: usize = 0;
    let mut i: usize = 0;
    proof {
        assert(s@.subrange(0, len as int) =~= s@);
        assert(str_views(out@) + split_colon(s@) =~~= split_colon(s@));
    }
    while i < len
        invariant
            start <= i <= len,
            len == s@.len(),
            split_colon(s@) == str_views(out@) + split_colon(
                s@.subrange(start as int, len as int),
            ),
            forall|m: int| start <= m < i ==> s@[m] != ':',
        decreases len - i,
    {
        let c = s.as_str().get_char(i);
        if c == ':' {
            let piece = s.as_str().substring_char(start, i).to_owned();
            out.push(piece);
            proof {
                let seg = s@.subrange(start as int, len as int);
                lemma_split_at_colon(seg, i - start);
                assert(seg.subrange(0, i - start) =~= s@.subrange(start as int, i as int));
                assert(seg.subrange(i - start + 1, seg.len() as int) =~= s@.subrange(
                    i + 1,
                    len as int,
                ));
                assert(split_colon(seg) =~~= seq![s@.subrange(start as int, i as int)]
                    + split_colon(s@.subrange(i + 1, len as int)));
                assert(str_views(out@) =~~= str_views(out@.drop_last()) + seq![
                    s@.subrange(start as int, i as int),
                ]);
                assert(split_colon(s@) =~~= str_views(out@) + split_colon(
                    s@.subrange(i + 1, len as int),
                ));
            }
            start = i + 1;
        }
        i += 1;
    }
    let piece = s.as_str().substring_char(start, len).to_owned();
    out.push(piece);
    proof {
        let seg = s@.subrange(start as int, len as int);
        lemma_split_no_colon(seg);
        assert(str_views(out@) =~~= str_views(out@.drop_last()) + seq![seg]);
        assert(split_colon(s@) =~~= str_views(out@));
    }
    out
}

/// The marker of the shim-install directory: a `PATH` entry containing it
/// points into that directory and must not be searched.
pub open spec fn shim_marker() -> Seq<char> {
    "binlinks"@
}

/// Whether a `PATH` entry points into the shim-install directory.
pub open spec fn has_marker(e: Seq<char>) -> bool {
    exists|j: int|
        0 <= j && j + shim_marker().len() <= e.len() && #[trigger] e.subrange(
            j,
            j + shim_marker().len() as int,
        ) == shim_marker()
}

/// The entries that survive the loop-prevention filter, in order.
pub open spec fn kept_entries(es: Seq<Seq<char>>) -> Seq<Seq<char>>
    decreases es.len(),
{
    if es.len() == 0 {
        Seq::empty()
    } else {
        let r = kept_entries(es.drop_last());
        if has_marker(es.last()) {
            r
        } else {
            r.push(es.last())
        }
    }
}

/// Whether one `PATH` entry points into the shim-install directory.
fn entry_has_marker(e: &String) -> (r: bool)
    ensures
        r == has_marker(e@),
{
    let marker: String = String::from_str("binlinks");
    proof {
        reveal_strlit("binlinks");
        assert(shim_marker().len() == 8);
    }
    let mlen = marker.as_str().unicode_len();
    let elen = e.as_str().unicode_len();
    if mlen > elen {
        proof {
            assert(!has_marker(e@)) by {
                if has_marker(e@) {
                    let j0 = choose|j: int|
                        0 <= j && j + shim_marker().len() <= e@.len() && #[trigger] e@.subrange(
                            j,
                            j + shim_marker().len() as int,
                        ) == shim_marker();
                    assert(shim_marker().len() <= e@.len());
                }
            }
        }
        return false;
    }
    let mut j: usize = 0;
    while j <= elen - mlen
        invariant
            marker@ == shim_marker(),
            mlen == shim_marker().len(),
            mlen == 8,
            elen == e@.len(),
            mlen <= elen,
            j <= elen - mlen + 1,
            forall|m: int|
                0 <= m < j ==> #[trigger] e@.subrange(m, m + shim_marker().len() as int)
                    != shim_marker(),
        decreases elen - mlen + 1 - j,
    {
        let sub = e.as_str().substring_char(j, j + mlen).to_owned();
        if sub == marker {
            proof {
                assert(sub@ == e@.subrange(j as int, j as int + mlen as int));
                assert(e@.subrange(j as int, j as int + shim_marker().len() as int)
                    == shim_marker());
            }
            return true;
        }
        j += 1;
    }
    proof {
        assert(!has_marker(e@)) by {
            if has_marker(e@) {
                let j0 = choose|j: int|
                    0 <= j && j + shim_marker().len() <= e@.len() && #[trigger] e@.subrange(
                        j,
                        j + shim_marker().len() as int,
                    ) == shim_marker();
                assert(j0 < j);
            }
        }
    }
    false
}

/// Split the inherited `PATH` and drop every entry that points into the
/// shim-install directory. This is the loop-prevention step: what remains
/// can never re-select the shim itself.
pub fn filter_search_path(path: &String) -> (r: Vec<String>)
    ensures
        str_views(r@) == kept_entries(split_colon(path@)),
{
    let parts = split_search_path(path);
    let mut out: Vec<String> = Vec::new();
    let mut i: usize = 0;
    while i < parts.len()
        invariant
            i <= parts@.len(),
            str_views(parts@) == split_colon(path@),
            str_views(out@) == kept_entries(str_views(parts@).take(i as int)),
        decreases parts@.len() - i,
    {
        let keep = !entry_has_marker(&parts[i]);
        if keep {
            out.push(parts[i].clone());
        }
        proof {
            let views = str_views(parts@);
            assert(views.take(i + 1).drop_last() =~= views.take(i as int));
            assert(views.take(i + 1).last() == parts@[i as int]@);
            if keep {
                assert(str_views(out@) =~= str_views(out@.drop_last()).push(parts@[i as int]@));
            }
            assert(str_views(out@) =~= kept_entries(views.take(i + 1)));
        }
        i += 1;
    }
    proof {
        assert(str_views(parts@).take(parts@.len() as int) =~= str_views(parts@));
    }
    out
}

/// Loop prevention: a `PATH` whose every entry points into the shim-install
/// directory filters down to nothing, so a fallback search over it finds
/// nothing and can never re-select the shim.
pub proof fn lemma_loop_prevention(path: Seq<char>)
    requires
        forall|i: int|
            0 <= i < split_colon(path).len() ==> has_marker(#[trigger] split_colon(path)[i]),
    ensures
        kept_entries(split_colon(path)).len() == 0,
{
    lemma_kept_entries_all_marked(split_colon(path));
}

/// A list of entries that all carry the marker filters down to nothing.
proof fn lemma_kept_entries_all_marked(es: Seq<Seq<char>>)
    requires
        forall|i: int| 0 <= i < es.len() ==> has_marker(#[trigger] es[i]),
    ensures
        kept_entries(es).len() == 0,
    decreases es.len(),
{
    if es.len() > 0 {
        lemma_kept_entries_all_marked(es.drop_last());
    }
}

/// The entries joined back into one `PATH`-style string.
pub open spec fn joined_colon(es: Seq<Seq<char>>) -> Seq<char>
    decreases es.len(),
{
    if es.len() == 0 {
        Seq::empty()
    } else if es.len() == 1 {
        es[0]
    } else {
        joined_colon(es.drop_last()) + seq![':'] + es.last()
    }
}

/// Join directory entries into one `PATH`-style string.
pub fn join_search_path(parts: &Vec<String>) -> (r: String)
    ensures
        r@ == joined_colon(str_views(parts@)),
{
    let mut out = String::new();
    let mut i: usize = 0;
    while i < parts.len()
        invariant
            i <= parts@.len(),
            out@ == joined_colon(str_views(parts@).take(i as int)),
        decreases parts@.len() - i,
    {
        if i > 0 {
            out.append(":");
        }
        out.append(parts[i].as_str());
        proof {
            reveal_strlit(":");
            assert(":"@ =~= seq![':']);
            let views = str_views(parts@);
            assert(views.take(i + 1).drop_last() =~= views.take(i as int));
            assert(views.take(i + 1).last() == parts@[i as int]@);
            if i == 0 {
                assert(out@ =~= joined_colon(views.take(1)));
            } else {
                assert(out@ =~= joined_colon(views.take(i + 1)));
            }
        }
        i += 1;
    }
    proof {
        assert(str_views(parts@).take(parts@.len() as int) =~= str_views(parts@));
    }
    out
}

/// Relies on which::which_in: searches for an executable called `name` in
/// the colon-separated directory list `search`. A `name` that is absolute,
/// or holds a path separator, is instead checked directly (resolved against
/// `cwd`); a plain `name` with `search` absent finds nothing. Returns a
/// hit's path, or `None` when nothing was found or the hit's path was not
/// valid UTF-8. The result depends on what is on disk, so nothing is
/// promised of it.
#[verifier::external_body]
fn which_search(name: &String, search: Option<&String>, cwd: &String) -> (r: Option<String>) {
    which::which_in(name.as_str(), search.map(|s| s.as_str()), cwd.as_str()).ok().and_then(
        |p| p.to_str().map(|q| q.to_owned()),
    )
}

/// Main resolution: search for the invoked name inside its configured
/// directory only. Not finding it there is fatal misconfiguration, reported
/// with the name and the directory.
pub fn find_main(name: &String, dir: &String) -> (r: Result<String, DispatchError>)
    ensures
        r matches Err(e) ==> (e matches DispatchError::NotInDir { name: n, dir: d } && n@
            == name@ && d@ == dir@),
{
    let found = which_search(name, Some(dir), dir);
    match found {
        Some(p) => Ok(p),
        None => Err(DispatchError::NotInDir { name: name.clone(), dir: dir.clone() }),
    }
}

/// Fallback resolution: search the inherited `PATH` with every entry that
/// points into the shim-install directory removed first. When the filter
/// leaves nothing — in particular when the `PATH` held only the shim
/// directory — the search fails without looking anywhere, so it can never
/// re-select the shim itself.
pub fn find_fallback(name: &String, path_var: Option<&String>, cwd: &String) -> (r: Result<
    String,
    DispatchError,
>)
    ensures
        (match path_var {
            Some(p) => kept_entries(split_colon(p@)).len() == 0,
            None => false,
        }) ==> r is Err,
        r matches Err(e) ==> (e matches DispatchError::NotOnPath { name: n } && n@ == name@),
{
    let joined: Option<String> = match path_var {
        Some(p) => {
            let parts = filter_search_path(p);
            if parts.len() == 0 {
                return Err(DispatchError::NotOnPath { name: name.clone() });
            }
            Some(join_search_path(&parts))
        },
        None => None,
    };
    let found = match &joined {
        Some(jp) => which_search(name, Some(jp), cwd),
        None => which_search(name, None, cwd),
    };
    match found {
        Some(p) => Ok(p),
        None => Err(DispatchError::NotOnPath { name: name.clone() }),
    }
}

/// Pick the on-disk executable for an invoked name: a name in the table
/// must be found inside its configured directory; a name not in the table
/// falls back to the filtered `PATH` search.
pub fn resolve_command(
    resolved: &ResolvedConfig,
    name: &String,
    path_var: Option<&String>,
    cwd: &String,
) -> (r: Result<String, DispatchError>)
    requires
        resolved.wf(),
    ensures
        resolved.bins_view().dom().contains(name@) ==> (r matches Err(e) ==> (e
            matches DispatchError::NotInDir { name: n, dir: d } && n@ == name@ && d@
            == resolved.bins_view()[name@])),
        !resolved.bins_view().dom().contains(name@) ==> (r matches Err(e) ==> (e
            matches DispatchError::NotOnPath { name: n } && n@ == name@)),
        !resolved.bins_view().dom().contains(name@) && (match path_var {
            Some(p) => kept_entries(split_colon(p@)).len() == 0,
            None => false,
        }) ==> r is Err,
{
    let hit = resolved.lookup(name);
    match hit {
        Some(dir) => {
            let d = dir.clone();
            find_main(name, &d)
        },
        None => find_fallback(name, path_var, cwd),
    }
}

/// Script detection: a target whose first two bytes are `#!` (35 and 33)
/// is a script that needs an interpreter; anything else runs natively.
pub fn has_shebang(b0: u8, b1: u8) -> (r: bool)
    ensures
        r == (b0 == 35 && b1 == 33),
{
    b0 == 35 && b1 == 33
}

/// Append clones of all of `src` to `dst`.
fn push_all(dst: &mut Vec<String>, src: &Vec<String>)
    ensures
        str_views(final(dst)@) == str_views(old(dst)@) + str_views(src@),
{
    let mut i: usize = 0;
    while i < src.len()
        invariant
            i <= src@.len(),
            dst@.len() == old(dst)@.len() + i,
            forall|m: int| 0 <= m < old(dst)@.len() ==> #[trigger] dst@[m] == old(dst)@[m],
            forall|m: int|
                0 <= m < i ==> #[trigger] dst@[old(dst)@.len() + m]@ == src@[m]@,
        decreases src@.len() - i,
    {
        dst.push(src[i].clone());
        i += 1;
    }
    proof {
        let base = old(dst)@.len() as int;
        assert forall|k: int| 0 <= k < dst@.len() implies str_views(dst@)[k] == (str_views(
            old(dst)@,
        ) + str_views(src@))[k] by {
            if base <= k {
                let m = k - base;
                assert(dst@[base + m]@ == src@[m]@);
            }
        }
        assert(str_views(dst@) =~= str_views(old(dst)@) + str_views(src@));
    }
}

/// The interpreter a script is handed to.
pub open spec fn sh_path() -> Seq<char> {
    "/bin/sh"@
}

/// Assemble the executable to become and its argument vector. A native
/// target runs as itself, its own path first; a script is handed to
/// `/bin/sh` explicitly, the script's path its first argument. The
/// invoker's own arguments follow unchanged either way.
pub fn assemble_argv(bin: &String, script: bool, args: &Vec<String>) -> (r: (String, Vec<String>))
    ensures
        script ==> r.0@ == sh_path() && str_views(r.1@) == seq![sh_path(), bin@] + str_views(
            args@,
        ),
        !script ==> r.0@ == bin@ && str_views(r.1@) == seq![bin@] + str_views(args@),
{
    let mut argv: Vec<String> = Vec::new();
    if script {
        let sh = String::from_str("/bin/sh");
        argv.push(sh.clone());
        argv.push(bin.clone());
        proof {
            assert(str_views(argv@) =~~= seq![sh_path(), bin@]);
        }
        push_all(&mut argv, args);
        (sh, argv)
    } else {
        argv.push(bin.clone());
        proof {
            assert(str_views(argv@) =~~= seq![bin@]);
        }
        push_all(&mut argv, args);
        (bin.clone(), argv)
    }
}

/// One formatted environment entry, `key=value`.
pub open spec fn env_entry(k: Seq<char>, v: Seq<char>) -> Seq<char> {
    k + seq!['='] + v
}

/// Format the inherited environment, handed over as key/value pairs, into
/// the `key=value` strings a process image takes; nothing is added,
/// dropped or reordered.
pub fn make_env(vars: &Vec<(String, String)>) -> (r: Vec<String>)
    ensures
        r@.len() == vars@.len(),
        forall|i: int|
            0 <= i < vars@.len() ==> #[trigger] r@[i]@ == env_entry(vars@[i].0@, vars@[i].1@),
{
    let mut out: Vec<String> = Vec::new();
    let mut i: usize = 0;
    while i < vars.len()
        invariant
            i <= vars@.len(),
            out@.len() == i,
            forall|m: int|
                0 <= m < i ==> #[trigger] out@[m]@ == env_entry(vars@[m].0@, vars@[m].1@),
        decreases vars@.len() - i,
    {
        let mut s = vars[i].0.clone();
        s.append("=");
        s.append(vars[i].1.as_str());
        proof {
            reveal_strlit("=");
            assert("="@ =~= seq!['=']);
            assert(s@ =~= env_entry(vars@[i as int].0@, vars@[i as int].1@));
        }
        out.push(s);
        i += 1;
    }
    out
}

} // verus!
