//! Version comparison and update-archive layout for the self-updater.

use vstd::prelude::*;
use crate::text::{chars_of, parse_unsigned, parse_unsigned_spec, string_of, push_chars, push_str, has_prefix, starts_with, slice_chars, find_char, first_index_of};

verus! {

/// `s` without its leading `v` characters.
pub open spec fn strip_v(s: Seq<char>) -> Seq<char>
    decreases s.len(),
{
    if s.len() > 0 && s[0] == 'v' {
        strip_v(s.drop_first())
    } else {
        s
    }
}

/// A dot-separated piece's contribution: its number if it reads as a `u32`, else nothing.
pub open spec fn piece_value(piece: Seq<char>) -> Seq<nat> {
    match parse_unsigned_spec(piece, 10, u32::MAX as nat) {
        Some(v) => seq![v],
        None => Seq::empty(),
    }
}

/// Splitting the first `i` characters at dots: the numbers of the finished
/// pieces, and the piece still being read.
pub open spec fn pieces_upto(s: Seq<char>, i: int) -> (Seq<nat>, Seq<char>)
    decreases i,
{
    if i <= 0 {
        (Seq::empty(), Seq::empty())
    } else {
        let (done, cur) = pieces_upto(s, i - 1);
        if s[i - 1] == '.' {
            (done + piece_value(cur), Seq::empty())
        } else {
            (done, cur.push(s[i - 1]))
        }
    }
}

/// The numbers of a version string: leading `v`s dropped, split at dots,
/// pieces that do not read as a `u32` left out.
pub open spec fn version_numbers(s: Seq<char>) -> Seq<nat> {
    let t = strip_v(s);
    let (done, cur) = pieces_upto(t, t.len() as int);
    done + piece_value(cur)
}

/// The `i`-th version number, 0 when missing.
pub open spec fn part(v: Seq<nat>, i: int) -> nat {
    if 0 <= i < v.len() {
        v[i]
    } else {
        0
    }
}

/// Whether version numbers `r` are newer than `l`, comparing major, minor
/// and patch in turn; anything past the third number is ignored.
pub open spec fn newer(l: Seq<nat>, r: Seq<nat>) -> bool {
    if part(r, 0) != part(l, 0) {
        part(r, 0) > part(l, 0)
    } else if part(r, 1) != part(l, 1) {
        part(r, 1) > part(l, 1)
    } else {
        part(r, 2) > part(l, 2)
    }
}

/// The numbers of a version string (see [`version_numbers`]).
pub fn parse_version(s: &str) -> (v: Vec<u32>)
    ensures
        v@.len() == version_numbers(s@).len(),
        forall|i: int| 0 <= i < v@.len() ==> v@[i] as nat == version_numbers(s@)[i],
{
    let chars = chars_of(s);
    let mut a: usize = 0;
    assert(chars@.subrange(0, chars@.len() as int) =~= s@);
    while a < chars.len() && chars[a] == 'v'
        invariant
            a <= chars@.len(),
            chars@ == s@,
            strip_v(s@) == strip_v(chars@.subrange(a as int, chars@.len() as int)),
        decreases chars@.len() - a,
    {
        proof {
            let t = chars@.subrange(a as int, chars@.len() as int);
            assert(t.drop_first() =~= chars@.subrange(a + 1, chars@.len() as int));
        }
        a += 1;
    }
    let t = slice_chars(&chars, a, chars.len());
    proof {
        assert(t@ == strip_v(s@)) by {
            let u = chars@.subrange(a as int, chars@.len() as int);
            assert(u.len() == 0 || u[0] != 'v');
        }
    }
    let mut out: Vec<u32> = Vec::new();
    let mut cur: Vec<char> = Vec::new();
    let n = t.len();
    for i in 0..n
        invariant
            n == t@.len(),
            pieces_upto(t@, i as int).1 == cur@,
            out@.len() == pieces_upto(t@, i as int).0.len(),
            forall|k: int| 0 <= k < out@.len() ==> out@[k] as nat == pieces_upto(t@, i as int).0[k],
    {
        if t[i] == '.' {
            let ghost before = out@;
            match parse_unsigned(&cur, 10, 4294967295) {
                Some(x) => {
                    out.push(x as u32);
                },
                None => {},
            }
            cur = Vec::new();
            proof {
                let d = pieces_upto(t@, i as int).0;
                assert forall|k: int| 0 <= k < out@.len() implies out@[k] as nat == (d + piece_value(pieces_upto(t@, i as int).1))[k] by {
                    if k < before.len() {
                        assert(out@[k] == before[k]);
                    }
                }
            }
        } else {
            cur.push(t[i]);
        }
    }
    let ghost before = out@;
    match parse_unsigned(&cur, 10, 4294967295) {
        Some(x) => {
            out.push(x as u32);
        },
        None => {},
    }
    proof {
        let d = pieces_upto(t@, n as int).0;
        assert forall|k: int| 0 <= k < out@.len() implies out@[k] as nat == version_numbers(s@)[k] by {
            if k < before.len() {
                assert(out@[k] == before[k]);
            }
        }
    }
    out
}

/// The `i`-th number, 0 when missing.
fn part_of(v: &Vec<u32>, i: usize) -> (x: u32)
    ensures
        x as nat == part(v@.map_values(|e: u32| e as nat), i as int),
{
    if i < v.len() {
        v[i]
    } else {
        0
    }
}

/// Whether the `remote` version is newer than the `local` one (see [`newer`]).
pub fn is_newer(local: &str, remote: &str) -> (b: bool)
    ensures
        b == newer(version_numbers(local@), version_numbers(remote@)),
{
    let l = parse_version(local);
    let r = parse_version(remote);
    proof {
        assert(l@.map_values(|e: u32| e as nat) =~= version_numbers(local@));
        assert(r@.map_values(|e: u32| e as nat) =~= version_numbers(remote@));
    }
    let mut i: usize = 0;
    while i < 3
        invariant
            i <= 3,
            l@.map_values(|e: u32| e as nat) == version_numbers(local@),
            r@.map_values(|e: u32| e as nat) == version_numbers(remote@),
            forall|k: int| 0 <= k < i ==> part(version_numbers(remote@), k) == part(version_numbers(local@), k),
        decreases 3 - i,
    {
        let lv = part_of(&l, i);
        let rv = part_of(&r, i);
        if rv > lv {
            return true;
        }
        if rv < lv {
            return false;
        }
        i += 1;
    }
    false
}

/// No version is newer than itself.
pub proof fn lemma_not_newer_than_itself(v: Seq<nat>)
    ensures
        !newer(v, v),
{
}

/// Of two versions, at most one is newer than the other.
pub proof fn lemma_newer_asymmetric(a: Seq<nat>, b: Seq<nat>)
    ensures
        !(newer(a, b) && newer(b, a)),
{
}

/// Being newer is transitive.
pub proof fn lemma_newer_transitive(a: Seq<nat>, b: Seq<nat>, c: Seq<nat>)
    requires
        newer(a, b),
        newer(b, c),
    ensures
        newer(a, c),
{
}

/// What the update feed announces.
#[derive(Clone, Debug)]
pub struct UpdateInfo {
    pub version: String,
    pub url: String,
    pub notes: String,
}

/// The answer to "is there an update?".
#[derive(Clone, Debug)]
pub struct UpdateCheckResult {
    pub current_version: String,
    pub latest_version: String,
    pub update_available: bool,
    pub download_url: String,
    pub notes: String,
}

/// The answer for the running version `current` given the feed's
/// announcement, or `None` when the feed could not be fetched successfully
/// (then nothing is available and the current version counts as latest).
pub fn update_check_result(current: &str, info: Option<UpdateInfo>) -> (r: UpdateCheckResult)
    ensures
        r.current_version@ == current@,
        match info {
            Some(i) => {
                &&& r.latest_version@ == i.version@
                &&& r.update_available == newer(version_numbers(current@), version_numbers(i.version@))
                &&& r.download_url@ == i.url@
                &&& r.notes@ == i.notes@
            },
            None => {
                &&& r.latest_version@ == current@
                &&& !r.update_available
                &&& r.download_url@ == Seq::<char>::empty()
                &&& r.notes@ == Seq::<char>::empty()
            },
        },
{
    match info {
        Some(i) => {
            let update_available = is_newer(current, i.version.as_str());
            UpdateCheckResult {
                current_version: String::from_str(current),
                latest_version: i.version,
                update_available,
                download_url: i.url,
                notes: i.notes,
            }
        },
        None => UpdateCheckResult {
            current_version: String::from_str(current),
            latest_version: String::from_str(current),
            update_available: false,
            download_url: String::new(),
            notes: String::new(),
        },
    }
}

/// An archive entry name with backslashes turned into forward slashes.
pub open spec fn normalize_name(s: Seq<char>) -> Seq<char> {
    s.map_values(|c: char| if c == '\\' { '/' } else { c })
}

/// The top-level folder of an archive, judged by its first entry: the
/// entry's name up to and including its first slash, or nothing.
pub open spec fn top_prefix_spec(first: Seq<char>) -> Seq<char> {
    let n = normalize_name(first);
    match first_index_of(n, '/') {
        Some(i) => n.subrange(0, i + 1),
        None => Seq::empty(),
    }
}

/// Where an entry goes inside the staging folder: its normalised name with
/// the top-level folder removed when it starts with it.
pub open spec fn relative_path_spec(entry: Seq<char>, prefix: Seq<char>) -> Seq<char> {
    let n = normalize_name(entry);
    if prefix.len() > 0 && has_prefix(n, prefix) {
        n.subrange(prefix.len() as int, n.len() as int)
    } else {
        n
    }
}

/// Turn backslashes into forward slashes.
pub fn normalize_entry_name(s: &str) -> (r: Vec<char>)
    ensures
        r@ == normalize_name(s@),
{
    let v = chars_of(s);
    let mut r: Vec<char> = Vec::new();
    for i in 0..v.len()
        invariant
            v@ == s@,
            r@ == normalize_name(v@.subrange(0, i as int)),
    {
        let c = if v[i] == '\\' { '/' } else { v[i] };
        r.push(c);
        assert(r@ =~= normalize_name(v@.subrange(0, i + 1)));
    }
    assert(v@.subrange(0, v@.len() as int) =~= v@);
    r
}

/// The top-level folder of an archive (see [`top_prefix_spec`]); with no
/// readable first entry, none.
pub fn top_level_prefix(first: Option<&str>) -> (p: String)
    ensures
        match first {
            Some(f) => p@ == top_prefix_spec(f@),
            None => p@ == Seq::<char>::empty(),
        },
{
    match first {
        None => String::new(),
        Some(f) => {
            let n = normalize_entry_name(f);
            match find_char(&n, '/') {
                Some(i) => {
                    let len = n.len();
                    assert(i < len);
                    let pre = slice_chars(&n, 0, i + 1);
                    string_of(&pre)
                },
                None => String::new(),
            }
        },
    }
}

/// Where an entry goes in the staging folder (see [`relative_path_spec`]);
/// empty for the top-level folder itself.
pub fn entry_relative_path(entry: &str, prefix: &str) -> (r: String)
    ensures
        r@ == relative_path_spec(entry@, prefix@),
{
    let n = normalize_entry_name(entry);
    let p = chars_of(prefix);
    if p.len() > 0 && starts_with(&n, &p) {
        let rest = slice_chars(&n, p.len(), n.len());
        string_of(&rest)
    } else {
        string_of(&n)
    }
}

/// A fixed part of the update script.
pub const SCRIPT_HEAD: &'static str = "@echo off\ntitle HowlingWind Updater\necho Applying update...\n:: Wait for the app to close\n:wait\ntasklist /FI \"PID eq %1\" 2>NUL | find /I \"%1\" >NUL\nif not errorlevel 1 (\n    timeout /t 1 /nobreak >NUL\n    goto wait\n)\n:: Copy staging files over app directory (skip games folder to preserve user ISOs)\nfor %%F in (\"";

/// A fixed part of the update script.
pub const SCRIPT_AFTER_STAGING_FILES: &'static str = "\\*\") do (\n    if not \"%%~nxF\"==\"games\" (\n        copy /Y \"%%F\" \"";

/// A fixed part of the update script.
pub const SCRIPT_AFTER_APP_DIR_FILES: &'static str = "\\\" >NUL 2>&1\n    )\n)\n:: Copy subdirectories except games\nfor /D %%D in (\"";

/// A fixed part of the update script.
pub const SCRIPT_AFTER_STAGING_DIRS: &'static str = "\\*\") do (\n    if /I not \"%%~nxD\"==\"games\" (\n        xcopy /E /Y /Q \"%%D\" \"";

/// A fixed part of the update script.
pub const SCRIPT_AFTER_APP_DIR_DIRS: &'static str = "\\%%~nxD\\\" >NUL 2>&1\n    )\n)\n:: Ensure games directory exists but don't overwrite ISOs\nif not exist \"";

/// A fixed part of the update script.
pub const SCRIPT_BEFORE_MKDIR: &'static str = "\\games\" mkdir \"";

/// A fixed part of the update script.
pub const SCRIPT_BEFORE_CLEANUP: &'static str = "\\games\"\n:: Clean up\nrmdir /S /Q \"";

/// A fixed part of the update script.
pub const SCRIPT_BEFORE_RELAUNCH: &'static str = "\" >NUL 2>&1\n:: Relaunch\nstart \"\" \"";

/// A fixed part of the update script.
pub const SCRIPT_TAIL: &'static str = "\"\n:: Delete this batch file\ndel \"%~f0\"\n";

/// The script that applies a staged update once the app has exited: it
/// waits for the process whose id it is given to end, copies the staged
/// files and folders over the app folder (leaving `games` alone), removes
/// the staging folder, restarts the app and deletes itself.
pub open spec fn update_script_spec(staging: Seq<char>, app_dir: Seq<char>, exe: Seq<char>) -> Seq<char> {
    SCRIPT_HEAD@ + staging + SCRIPT_AFTER_STAGING_FILES@ + app_dir + SCRIPT_AFTER_APP_DIR_FILES@ + staging + SCRIPT_AFTER_STAGING_DIRS@ + app_dir + SCRIPT_AFTER_APP_DIR_DIRS@ + app_dir + SCRIPT_BEFORE_MKDIR@ + app_dir + SCRIPT_BEFORE_CLEANUP@ + staging + SCRIPT_BEFORE_RELAUNCH@ + exe + SCRIPT_TAIL@
}

/// The script that applies a staged update (see [`update_script_spec`]).
pub fn update_script(staging: &str, app_dir: &str, exe: &str) -> (s: String)
    ensures
        s@ == update_script_spec(staging@, app_dir@, exe@),
{
    let mut v: Vec<char> = Vec::new();
    push_str(&mut v, SCRIPT_HEAD);
    push_str(&mut v, staging);
    push_str(&mut v, SCRIPT_AFTER_STAGING_FILES);
    push_str(&mut v, app_dir);
    push_str(&mut v, SCRIPT_AFTER_APP_DIR_FILES);
    push_str(&mut v, staging);
    push_str(&mut v, SCRIPT_AFTER_STAGING_DIRS);
    push_str(&mut v, app_dir);
    push_str(&mut v, SCRIPT_AFTER_APP_DIR_DIRS);
    push_str(&mut v, app_dir);
    push_str(&mut v, SCRIPT_BEFORE_MKDIR);
    push_str(&mut v, app_dir);
    push_str(&mut v, SCRIPT_BEFORE_CLEANUP);
    push_str(&mut v, staging);
    push_str(&mut v, SCRIPT_BEFORE_RELAUNCH);
    push_str(&mut v, exe);
    push_str(&mut v, SCRIPT_TAIL);
    assert(v@ =~= update_script_spec(staging@, app_dir@, exe@));
    string_of(&v)
}


/// Versions are ordered by major number first, then minor, then patch: a
/// greater major number makes a version newer (a smaller one older)
/// whatever the minor and patch numbers; with equal majors the minor
/// numbers decide the same way; with equal majors and minors, the version
/// is newer exactly when its patch number is greater. No version is newer
/// than itself, and of two versions at most one is newer than the other.
pub proof fn lemma_newer_is_lexicographic(l: Seq<nat>, r: Seq<nat>)
    ensures
        part(r, 0) > part(l, 0) ==> newer(l, r),
        part(r, 0) < part(l, 0) ==> !newer(l, r),
        part(r, 0) == part(l, 0) && part(r, 1) > part(l, 1) ==> newer(l, r),
        part(r, 0) == part(l, 0) && part(r, 1) < part(l, 1) ==> !newer(l, r),
        part(r, 0) == part(l, 0) && part(r, 1) == part(l, 1) ==> (newer(l, r) <==> part(r, 2) > part(l, 2)),
        !newer(l, l),
        newer(l, r) ==> !newer(r, l),
{
}

/// The same order read off the version numbers themselves, when both
/// versions have major, minor and patch numbers.
pub proof fn lemma_newer_on_full_versions(l: Seq<nat>, r: Seq<nat>)
    requires
        l.len() >= 3,
        r.len() >= 3,
    ensures
        r[0] > l[0] ==> newer(l, r),
        r[0] == l[0] && r[1] > l[1] ==> newer(l, r),
        r[0] == l[0] && r[1] == l[1] ==> (newer(l, r) <==> r[2] > l[2]),
        r[0] < l[0] || (r[0] == l[0] && r[1] < l[1]) ==> !newer(l, r),
{
}
} // verus!
