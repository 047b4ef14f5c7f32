//! Volumes, mount tables, directory order, previews and the names of pasted copies.
use vstd::prelude::*;
use crate::chars::{decimal, push_chars, push_decimal, push_str, string_from_chars, to_chars};
use crate::text::{char_views, split_words, words};
use crate::types::{entry_views, EntryItem, EntryView};
use crate::zip_preview::{zip_listing, zip_preview, zip_preview_text, ZipTexts};

pub use crate::text::sanitize_preview_text;

verus! {

/// The label of volume `index`: its number from one, a colon and its path.
pub open spec fn volume_label_text(index: nat, path: Seq<char>) -> Seq<char> {
    decimal(index + 1) + ": "@ + path
}

/// The label of volume `index` as the volume line shows it.
pub fn volume_label(index: usize, path: &String) -> (r: String)
    requires
        index < usize::MAX,
    ensures
        r@ == volume_label_text(index as nat, path@),
{
    let mut s = String::new();
    push_decimal(&mut s, index + 1);
    push_str(&mut s, ": ");
    push_str(&mut s, path.as_str());
    s
}

/// Whether `s` begins with `pat`.
pub open spec fn starts_with(s: Seq<char>, pat: Seq<char>) -> bool {
    pat.len() <= s.len() && forall|k: int| 0 <= k < pat.len() ==> s[k] == pat[k]
}

/// `str::replace` for a non-empty pattern: every occurrence of `pat`, found
/// from the left without overlap, becomes `rep`.
pub open spec fn replace_all(s: Seq<char>, pat: Seq<char>, rep: Seq<char>) -> Seq<char>
    decreases s.len(),
{
    if s.len() == 0 {
        s
    } else if pat.len() > 0 && starts_with(s, pat) {
        rep + replace_all(s.skip(pat.len() as int), pat, rep)
    } else {
        seq![s[0]] + replace_all(s.skip(1), pat, rep)
    }
}

/// Replaces every occurrence of `pat` in `cs` with `rep` (see `replace_all`).
pub fn replace_chars(cs: &Vec<char>, pat: &Vec<char>, rep: &Vec<char>) -> (r: Vec<char>)
    requires
        pat@.len() > 0,
    ensures
        r@ == replace_all(cs@, pat@, rep@),
{
    let mut out: Vec<char> = Vec::new();
    let n = cs.len();
    let m = pat.len();
    let mut i: usize = 0;
    assert(cs@.skip(0) == cs@);
    assert(out@ + replace_all(cs@, pat@, rep@) == replace_all(cs@, pat@, rep@));
    while i < n
        invariant
            i <= n,
            n == cs@.len(),
            m == pat@.len(),
            m > 0,
            out@ + replace_all(cs@.skip(i as int), pat@, rep@) == replace_all(cs@, pat@, rep@),
        decreases n - i,
    {
        let ghost rest = cs@.skip(i as int);
        let mut hit = m <= n - i;
        if hit {
            for k in 0..m
                invariant
                    m == pat@.len(),
                    m <= n - i,
                    n == cs@.len(),
                    rest == cs@.skip(i as int),
                    hit == (forall|j: int| 0 <= j < k ==> rest[j] == pat@[j]),
            {
                assert(rest[k as int] == cs@[i + k]);
                if cs[i + k] != pat[k] {
                    hit = false;
                }
            }
        }
        assert(hit == starts_with(rest, pat@));
        if hit {
            let ghost before = out@;
            push_all(&mut out, rep);
            assert(rest.skip(m as int) == cs@.skip(i + m));
            assert(before + (rep@ + replace_all(cs@.skip(i + m), pat@, rep@)) == out@ + replace_all(cs@.skip(i + m), pat@, rep@));
            i = i + m;
        } else {
            let ghost before = out@;
            out.push(cs[i]);
            assert(rest.skip(1) == cs@.skip(i + 1));
            assert(before + (seq![cs@[i as int]] + replace_all(cs@.skip(i + 1), pat@, rep@)) == out@ + replace_all(cs@.skip(i + 1), pat@, rep@));
            i = i + 1;
        }
    }
    assert(cs@.skip(n as int) == Seq::<char>::empty());
    assert(out@ + Seq::<char>::empty() == out@);
    out
}

fn push_all(out: &mut Vec<char>, rep: &Vec<char>)
    ensures
        final(out)@ == old(out)@ + rep@,
{
    let ghost start = out@;
    let n = rep.len();
    for k in 0..n
        invariant
            n == rep@.len(),
            out@ == start + rep@.take(k as int),
    {
        out.push(rep[k]);
        assert(rep@.take(k + 1) == rep@.take(k as int).push(rep@[k as int]));
    }
    assert(rep@.take(n as int) == rep@);
}

/// A mount table field with the octal escapes for space, tab, line feed and
/// backslash decoded, in that order.
pub open spec fn unescaped(s: Seq<char>) -> Seq<char> {
    replace_all(
        replace_all(
            replace_all(replace_all(s, seq!['\\', '0', '4', '0'], seq![' ']), seq!['\\', '0', '1', '1'], seq!['\t']),
            seq!['\\', '0', '1', '2'],
            seq!['\n'],
        ),
        seq!['\\', '1', '3', '4'],
        seq!['\\'],
    )
}

/// Decodes the escapes of a mount table field (see `unescaped`).
pub fn unescape_mount_field(value: &str) -> (r: String)
    ensures
        r@ == unescaped(value@),
{
    let cs = to_chars(value);
    let p1 = vec!['\\', '0', '4', '0'];
    let r1 = vec![' '];
    let p2 = vec!['\\', '0', '1', '1'];
    let r2 = vec!['\t'];
    let p3 = vec!['\\', '0', '1', '2'];
    let r3 = vec!['\n'];
    let p4 = vec!['\\', '1', '3', '4'];
    let r4 = vec!['\\'];
    assert(p1@ == seq!['\\', '0', '4', '0']);
    assert(r1@ == seq![' ']);
    assert(p2@ == seq!['\\', '0', '1', '1']);
    assert(r2@ == seq!['\t']);
    assert(p3@ == seq!['\\', '0', '1', '2']);
    assert(r3@ == seq!['\n']);
    assert(p4@ == seq!['\\', '1', '3', '4']);
    assert(r4@ == seq!['\\']);
    let a = replace_chars(&cs, &p1, &r1);
    let b = replace_chars(&a, &p2, &r2);
    let c = replace_chars(&b, &p3, &r3);
    let d = replace_chars(&c, &p4, &r4);
    string_from_chars(&d)
}

/// The mount point and file system type of a mount table line: its second
/// and third whitespace-separated fields, the mount point decoded; nothing
/// for a line with fewer fields or a mount point that is not absolute.
pub open spec fn parsed_mount_line(line: Seq<char>) -> Option<(Seq<char>, Seq<char>)> {
    let ws = words(line);
    if ws.len() < 3 {
        None
    } else {
        let mount_point = unescaped(ws[1]);
        if mount_point.len() > 0 && mount_point[0] == '/' {
            Some((mount_point, ws[2]))
        } else {
            None
        }
    }
}

/// Parses one line of `/proc/mounts` (see `parsed_mount_line`).
pub fn parse_mount_line(line: &str) -> (r: Option<(String, String)>)
    ensures
        match r {
            Some(p) => parsed_mount_line(line@) == Some((p.0@, p.1@)),
            None => parsed_mount_line(line@) is None,
        },
{
    let cs = to_chars(line);
    let ws = split_words(&cs);
    if ws.len() < 3 {
        return None;
    }
    assert(char_views(ws@)[1] == ws@[1]@);
    assert(char_views(ws@)[2] == ws@[2]@);
    let raw = string_from_chars(&ws[1]);
    let mount_point = unescape_mount_field(raw.as_str());
    let mp = to_chars(mount_point.as_str());
    if mp.len() > 0 && mp[0] == '/' {
        Some((mount_point, string_from_chars(&ws[2])))
    } else {
        None
    }
}

/// Whether two character sequences are equal.
pub fn chars_equal(a: &Vec<char>, b: &Vec<char>) -> (r: bool)
    ensures
        r == (a@ == b@),
{
    if a.len() != b.len() {
        return false;
    }
    let n = a.len();
    for i in 0..n
        invariant
            n == a@.len(),
            n == b@.len(),
            forall|j: int| 0 <= j < i ==> a@[j] == b@[j],
    {
        if a[i] != b[i] {
            return false;
        }
    }
    assert(a@ =~= b@);
    true
}

/// Whether two strings are equal.
pub fn str_equal(a: &str, b: &str) -> (r: bool)
    ensures
        r == (a@ == b@),
{
    chars_equal(&to_chars(a), &to_chars(b))
}

/// The file systems that hold no user volumes (kernel and pseudo file systems).
pub open spec fn virtual_fs_names() -> Seq<Seq<char>> {
    seq![
        "proc"@, "sysfs"@, "tmpfs"@, "devtmpfs"@, "devpts"@, "cgroup"@, "cgroup2"@,
        "securityfs"@, "pstore"@, "bpf"@, "mqueue"@, "hugetlbfs"@, "tracefs"@, "fusectl"@,
        "configfs"@, "debugfs"@, "overlay"@, "nsfs"@, "rpc_pipefs"@, "autofs"@, "binfmt_misc"@,
    ]
}

/// Whether a mount of this type is skipped when collecting volumes.
pub fn is_virtual_fs(fs_type: &str) -> (r: bool)
    ensures
        r == virtual_fs_names().contains(fs_type@),
{
    let mut names: Vec<&'static str> = Vec::new();
    names.push("proc");
    names.push("sysfs");
    names.push("tmpfs");
    names.push("devtmpfs");
    names.push("devpts");
    names.push("cgroup");
    names.push("cgroup2");
    names.push("securityfs");
    names.push("pstore");
    names.push("bpf");
    names.push("mqueue");
    names.push("hugetlbfs");
    names.push("tracefs");
    names.push("fusectl");
    names.push("configfs");
    names.push("debugfs");
    names.push("overlay");
    names.push("nsfs");
    names.push("rpc_pipefs");
    names.push("autofs");
    names.push("binfmt_misc");
    let ghost vn = virtual_fs_names();
    assert(forall|i: int| 0 <= i < names@.len() ==> #[trigger] names@[i]@ == vn[i]);
    let n = names.len();
    for i in 0..n
        invariant
            n == names@.len(),
            n == vn.len(),
            vn == virtual_fs_names(),
            forall|j: int| 0 <= j < n ==> #[trigger] names@[j]@ == vn[j],
            forall|j: int| 0 <= j < i ==> vn[j] != fs_type@,
    {
        if str_equal(names[i], fs_type) {
            assert(vn[i as int] == fs_type@);
            return true;
        }
    }
    false
}

/// The virtual file systems are exactly these kernel and pseudo file systems;
/// a mount of any other type may hold a volume.
pub proof fn law_virtual_file_systems(t: Seq<char>)
    ensures
        virtual_fs_names().contains(t) <==> ({
            t == "proc"@
            || t == "sysfs"@
            || t == "tmpfs"@
            || t == "devtmpfs"@
            || t == "devpts"@
            || t == "cgroup"@
            || t == "cgroup2"@
            || t == "securityfs"@
            || t == "pstore"@
            || t == "bpf"@
            || t == "mqueue"@
            || t == "hugetlbfs"@
            || t == "tracefs"@
            || t == "fusectl"@
            || t == "configfs"@
            || t == "debugfs"@
            || t == "overlay"@
            || t == "nsfs"@
            || t == "rpc_pipefs"@
            || t == "autofs"@
            || t == "binfmt_misc"@
        }),
{
    let vn = virtual_fs_names();
    if vn.contains(t) {
        let i = choose|i: int| 0 <= i < vn.len() && vn[i] == t;
        assert(vn[i] == t);
    }
    if t == "proc"@ {
        assert(vn[0] == t);
    }
    if t == "sysfs"@ {
        assert(vn[1] == t);
    }
    if t == "tmpfs"@ {
        assert(vn[2] == t);
    }
    if t == "devtmpfs"@ {
        assert(vn[3] == t);
    }
    if t == "devpts"@ {
        assert(vn[4] == t);
    }
    if t == "cgroup"@ {
        assert(vn[5] == t);
    }
    if t == "cgroup2"@ {
        assert(vn[6] == t);
    }
    if t == "securityfs"@ {
        assert(vn[7] == t);
    }
    if t == "pstore"@ {
        assert(vn[8] == t);
    }
    if t == "bpf"@ {
        assert(vn[9] == t);
    }
    if t == "mqueue"@ {
        assert(vn[10] == t);
    }
    if t == "hugetlbfs"@ {
        assert(vn[11] == t);
    }
    if t == "tracefs"@ {
        assert(vn[12] == t);
    }
    if t == "fusectl"@ {
        assert(vn[13] == t);
    }
    if t == "configfs"@ {
        assert(vn[14] == t);
    }
    if t == "debugfs"@ {
        assert(vn[15] == t);
    }
    if t == "overlay"@ {
        assert(vn[16] == t);
    }
    if t == "nsfs"@ {
        assert(vn[17] == t);
    }
    if t == "rpc_pipefs"@ {
        assert(vn[18] == t);
    }
    if t == "autofs"@ {
        assert(vn[19] == t);
    }
    if t == "binfmt_misc"@ {
        assert(vn[20] == t);
    }
}

/// A mount line of a virtual file system adds no volume candidate; a line of
/// any other file system that parses adds its mount point at the end.
pub proof fn law_virtual_mounts_are_skipped(ls: Seq<Seq<char>>, line: Seq<char>)
    ensures
        match parsed_mount_line(line) {
            Some((mount_point, fs_type)) => mount_candidates_of(ls.push(line)) == if virtual_fs_names().contains(fs_type) {
                mount_candidates_of(ls)
            } else {
                mount_candidates_of(ls).push(mount_point)
            },
            None => mount_candidates_of(ls.push(line)) == mount_candidates_of(ls),
        },
{
    assert(ls.push(line).drop_last() =~= ls);
}

/// The mount points of a mount table that may hold user volumes: every line
/// that parses, in order, whose file system is not virtual.
pub open spec fn mount_candidates_of(ls: Seq<Seq<char>>) -> Seq<Seq<char>>
    decreases ls.len(),
{
    if ls.len() == 0 {
        Seq::empty()
    } else {
        let before = mount_candidates_of(ls.drop_last());
        match parsed_mount_line(ls.last()) {
            Some(p) => if virtual_fs_names().contains(p.1) {
                before
            } else {
                before.push(p.0)
            },
            None => before,
        }
    }
}

/// The mount points that a mount table lists for user volumes (see
/// `mount_candidates_of`); lines are split as `str::lines` splits them.
pub fn mount_candidates(mounts_data: &str) -> (r: Vec<String>)
    ensures
        crate::text::string_views(r@) == mount_candidates_of(crate::text::lines(mounts_data@)),
{
    let cs = to_chars(mounts_data);
    let ls = crate::text::split_lines(&cs);
    let ghost lv = char_views(ls@);
    let mut r: Vec<String> = Vec::new();
    let n = ls.len();
    for i in 0..n
        invariant
            n == ls@.len(),
            lv == char_views(ls@),
            crate::text::string_views(r@) == mount_candidates_of(lv.take(i as int)),
    {
        assert(lv.take(i + 1).drop_last() == lv.take(i as int));
        assert(lv.take(i + 1).last() == ls@[i as int]@);
        let line = string_from_chars(&ls[i]);
        match parse_mount_line(line.as_str()) {
            Some(p) => {
                if !is_virtual_fs(p.1.as_str()) {
                    let ghost before = crate::text::string_views(r@);
                    r.push(p.0);
                    assert(crate::text::string_views(r@) == before.push(r@.last()@));
                }
            },
            None => {},
        }
    }
    assert(lv.take(n as int) == lv);
    r
}

/// The drive letters that are probed for volumes, `C` to `Z`.
pub open spec fn drive_letter(i: int) -> char {
    (('C' as u32) + i) as char
}

/// The root of a drive: the letter in upper case, a colon and a backslash.
pub open spec fn drive_root_text(letter: char) -> Seq<char> {
    seq![crate::chars::spec_to_ascii_uppercase(letter), ':', '\\']
}

/// The root path of the drive `letter` (`C:\` for `c`).
pub fn drive_root(letter: char) -> (r: String)
    ensures
        r@ == drive_root_text(letter),
{
    let mut s = String::new();
    crate::chars::push_char(&mut s, crate::chars::to_ascii_uppercase(letter));
    crate::chars::push_char(&mut s, ':');
    crate::chars::push_char(&mut s, '\\');
    s
}

/// The roots of the drives `C` to `Z` that exist, in order; `exists[i]` tells
/// whether the root of the `i`-th of these letters exists.
pub open spec fn present_roots(exists: Seq<bool>, k: int) -> Seq<Seq<char>>
    decreases k,
{
    if k <= 0 {
        Seq::empty()
    } else if exists[k - 1] {
        present_roots(exists, k - 1).push(drive_root_text(drive_letter(k - 1)))
    } else {
        present_roots(exists, k - 1)
    }
}

/// The drive roots `C:\` to `Z:\` that exist (see `present_roots`).
pub fn available_volumes(exists: &Vec<bool>) -> (r: Vec<String>)
    requires
        exists@.len() == 24,
    ensures
        crate::text::string_views(r@) == present_roots(exists@, 24),
{
    let mut volumes: Vec<String> = Vec::new();
    for i in 0..24usize
        invariant
            exists@.len() == 24,
            crate::text::string_views(volumes@) == present_roots(exists@, i as int),
    {
        if exists[i] {
            let c: u32 = 67 + i as u32;
            let letter: char = (c as u8) as char;
            assert(letter == drive_letter(i as int));
            let root = drive_root(letter);
            let ghost before = crate::text::string_views(volumes@);
            volumes.push(root);
            assert(crate::text::string_views(volumes@) == before.push(root@));
        }
    }
    volumes
}

/// Adds `path` to `volumes` unless it is there already.
pub fn add_root_if_absent(volumes: &mut Vec<String>, path: &String)
    ensures
        crate::text::string_views(final(volumes)@) == if crate::text::string_views(old(volumes)@).contains(path@) {
            crate::text::string_views(old(volumes)@)
        } else {
            crate::text::string_views(old(volumes)@).push(path@)
        },
{
    let ghost vs = crate::text::string_views(volumes@);
    let n = volumes.len();
    for i in 0..n
        invariant
            n == volumes@.len(),
            vs == crate::text::string_views(volumes@),
            forall|j: int| 0 <= j < i ==> vs[j] != path@,
    {
        if volumes[i] == *path {
            assert(vs[i as int] == path@);
            return;
        }
    }
    volumes.push(path.clone());
    assert(crate::text::string_views(volumes@) == vs.push(path@));
}

/// Strict order of strings by character, as `str` orders them: a proper
/// prefix comes first, otherwise the first differing character decides.
pub open spec fn lex_lt(a: Seq<char>, b: Seq<char>) -> bool
    decreases a.len(),
{
    if b.len() == 0 {
        false
    } else if a.len() == 0 {
        true
    } else if a[0] != b[0] {
        a[0] < b[0]
    } else {
        lex_lt(a.drop_first(), b.drop_first())
    }
}

pub proof fn lemma_lex_irreflexive(a: Seq<char>)
    ensures
        !lex_lt(a, a),
    decreases a.len(),
{
    if a.len() > 0 {
        lemma_lex_irreflexive(a.drop_first());
    }
}

pub proof fn lemma_lex_transitive(a: Seq<char>, b: Seq<char>, c: Seq<char>)
    requires
        lex_lt(a, b),
        lex_lt(b, c),
    ensures
        lex_lt(a, c),
    decreases a.len(),
{
    if a.len() > 0 && b.len() > 0 && c.len() > 0 && a[0] == b[0] && b[0] == c[0] {
        lemma_lex_transitive(a.drop_first(), b.drop_first(), c.drop_first());
    }
}

pub proof fn lemma_lex_total(a: Seq<char>, b: Seq<char>)
    ensures
        a == b || lex_lt(a, b) || lex_lt(b, a),
    decreases a.len(),
{
    if a.len() > 0 && b.len() > 0 && a[0] == b[0] {
        lemma_lex_total(a.drop_first(), b.drop_first());
        if a.drop_first() == b.drop_first() {
            assert(a == seq![a[0]] + a.drop_first());
            assert(b == seq![b[0]] + b.drop_first());
        }
    } else if a.len() == 0 && b.len() == 0 {
        assert(a == b);
    }
}

/// Whether `a` comes before `b` by character.
pub fn lex_less(a: &Vec<char>, b: &Vec<char>) -> (r: bool)
    ensures
        r == lex_lt(a@, b@),
{
    let n = a.len();
    let m = b.len();
    let mut i: usize = 0;
    assert(a@.skip(0) == a@);
    assert(b@.skip(0) == b@);
    while i < n && i < m
        invariant
            n == a@.len(),
            m == b@.len(),
            i <= n,
            i <= m,
            lex_lt(a@, b@) == lex_lt(a@.skip(i as int), b@.skip(i as int)),
        decreases n - i,
    {
        let ghost sa = a@.skip(i as int);
        let ghost sb = b@.skip(i as int);
        assert(sa[0] == a@[i as int]);
        assert(sb[0] == b@[i as int]);
        if a[i] != b[i] {
            return a[i] < b[i];
        }
        assert(sa.drop_first() == a@.skip(i + 1));
        assert(sb.drop_first() == b@.skip(i + 1));
        i = i + 1;
    }
    assert(a@.skip(i as int).len() == n - i);
    i == n && i < m
}

/// Every string comes strictly before the ones after it.
pub open spec fn strictly_sorted(s: Seq<Seq<char>>) -> bool {
    forall|i: int, j: int| 0 <= i < j < s.len() ==> lex_lt(#[trigger] s[i], #[trigger] s[j])
}

/// The volumes sorted by their text with duplicates removed.
pub fn sorted_volumes(volumes: Vec<String>) -> (r: Vec<String>)
    ensures
        strictly_sorted(crate::text::string_views(r@)),
        crate::text::string_views(r@).to_set() == crate::text::string_views(volumes@).to_set(),
{
    let ghost input = crate::text::string_views(volumes@);
    let mut r: Vec<String> = Vec::new();
    let mut keys: Vec<Vec<char>> = Vec::new();
    let n = volumes.len();
    for i in 0..n
        invariant
            n == volumes@.len(),
            input == crate::text::string_views(volumes@),
            keys@.len() == r@.len(),
            forall|k: int| 0 <= k < r@.len() ==> #[trigger] keys@[k]@ == r@[k]@,
            strictly_sorted(crate::text::string_views(r@)),
            crate::text::string_views(r@).to_set() == input.take(i as int).to_set(),
    {
        let x = to_chars(volumes[i].as_str());
        let ghost rv = crate::text::string_views(r@);
        let m = r.len();
        let mut j: usize = 0;
        while j < m && lex_less(&keys[j], &x)
            invariant
                j <= m,
                m == r@.len(),
                keys@.len() == m,
                rv == crate::text::string_views(r@),
                forall|k: int| 0 <= k < m ==> #[trigger] keys@[k]@ == r@[k]@,
                forall|k: int| 0 <= k < j ==> lex_lt(#[trigger] rv[k], x@),
            decreases m - j,
        {
            j = j + 1;
        }
        assert(input.take(i + 1) == input.take(i as int).push(x@));
        proof {
            input.take(i as int).lemma_push_to_set_commute(x@);
        }
        if j < m && chars_equal(&keys[j], &x) {
            assert(rv[j as int] == x@);
            assert(rv.contains(x@));
            assert(rv.to_set().insert(x@) =~= rv.to_set());
        } else {
            proof {
                if j < m {
                    assert(!lex_lt(rv[j as int], x@));
                    lemma_lex_total(rv[j as int], x@);
                }
            }
            let ghost old_keys = keys@;
            let ghost old_r = r@;
            r.insert(j, volumes[i].clone());
            keys.insert(j, x);
            let ghost nv = crate::text::string_views(r@);
            assert(nv =~= rv.insert(j as int, x@));
            assert forall|k: int| 0 <= k < r@.len() implies #[trigger] keys@[k]@ == r@[k]@ by {
                if k < j {
                    assert(keys@[k] == old_keys[k]);
                    assert(r@[k] == old_r[k]);
                } else if k > j {
                    assert(keys@[k] == old_keys[k - 1]);
                    assert(r@[k] == old_r[k - 1]);
                }
            }
            assert forall|a: int, b: int| 0 <= a < b < nv.len() implies lex_lt(#[trigger] nv[a], #[trigger] nv[b]) by {
                if b < j {
                } else if b == j {
                    assert(nv[b] == x@);
                    assert(nv[a] == rv[a]);
                } else if a == j {
                    assert(nv[a] == x@);
                    assert(nv[b] == rv[b - 1]);
                    if b - 1 > j {
                        assert(lex_lt(rv[j as int], rv[b - 1]));
                        lemma_lex_transitive(x@, rv[j as int], rv[b - 1]);
                    }
                } else if a < j {
                    assert(nv[a] == rv[a]);
                    assert(nv[b] == rv[b - 1]);
                } else {
                    assert(nv[a] == rv[a - 1]);
                    assert(nv[b] == rv[b - 1]);
                }
            }
            assert forall|y: Seq<char>| nv.contains(y) <==> rv.contains(y) || y == x@ by {
                if nv.contains(y) {
                    let k = choose|k: int| 0 <= k < nv.len() && nv[k] == y;
                    if k < j {
                        assert(rv[k] == y);
                    } else if k > j {
                        assert(rv[k - 1] == y);
                    }
                }
                if rv.contains(y) {
                    let k = choose|k: int| 0 <= k < rv.len() && rv[k] == y;
                    if k < j {
                        assert(nv[k] == y);
                    } else {
                        assert(nv[k + 1] == y);
                    }
                }
                if y == x@ {
                    assert(nv[j as int] == y);
                }
            }
            assert(nv.to_set() =~= rv.to_set().insert(x@));
        }
    }
    assert(input.take(n as int) == input);
    r
}

/// `vs` with `p` added at the end, unless it holds `p` already.
pub open spec fn with_absent(vs: Seq<Seq<char>>, p: Seq<char>) -> Seq<Seq<char>> {
    if vs.contains(p) {
        vs
    } else {
        vs.push(p)
    }
}

/// The mount points among the first `k` candidates whose directory exists
/// (`dirs[i]`), each once, in the order of their first appearance.
pub open spec fn directory_mounts(cands: Seq<Seq<char>>, dirs: Seq<bool>, k: int) -> Seq<Seq<char>>
    decreases k,
{
    if k <= 0 {
        Seq::empty()
    } else {
        let before = directory_mounts(cands, dirs, k - 1);
        if dirs[k - 1] {
            with_absent(before, cands[k - 1])
        } else {
            before
        }
    }
}

/// The volumes read from a mount table: the candidate mount points that are
/// directories, then the root `/` when it exists, each once.
pub open spec fn mount_point_list(cands: Seq<Seq<char>>, dirs: Seq<bool>, root_exists: bool) -> Seq<Seq<char>> {
    let v = directory_mounts(cands, dirs, cands.len() as int);
    if root_exists {
        with_absent(v, "/"@)
    } else {
        v
    }
}

proof fn lemma_with_absent(vs: Seq<Seq<char>>, p: Seq<char>)
    ensures
        vs.no_duplicates() ==> with_absent(vs, p).no_duplicates(),
        forall|x: Seq<char>| #[trigger] with_absent(vs, p).contains(x) <==> vs.contains(x) || x == p,
{
    if !vs.contains(p) {
        let w = vs.push(p);
        assert forall|x: Seq<char>| #[trigger] w.contains(x) <==> vs.contains(x) || x == p by {
            if w.contains(x) {
                let k = choose|k: int| 0 <= k < w.len() && w[k] == x;
                if k < vs.len() {
                    assert(vs[k] == x);
                }
            }
            if vs.contains(x) {
                let k = choose|k: int| 0 <= k < vs.len() && vs[k] == x;
                assert(w[k] == x);
            }
            if x == p {
                assert(w[vs.len() as int] == x);
            }
        }
        if vs.no_duplicates() {
            assert forall|i: int, j: int| 0 <= i < w.len() && 0 <= j < w.len() && i != j implies w[i] != w[j] by {
                if i < vs.len() && j < vs.len() {
                    assert(w[i] == vs[i] && w[j] == vs[j]);
                } else if i < vs.len() {
                    assert(w[i] == vs[i]);
                    assert(vs.contains(w[i]));
                } else {
                    assert(w[j] == vs[j]);
                    assert(vs.contains(w[j]));
                }
            }
        }
    }
}

proof fn lemma_directory_mounts(cands: Seq<Seq<char>>, dirs: Seq<bool>, k: int)
    requires
        0 <= k <= cands.len(),
        dirs.len() == cands.len(),
    ensures
        directory_mounts(cands, dirs, k).no_duplicates(),
        forall|x: Seq<char>| #[trigger] directory_mounts(cands, dirs, k).contains(x) <==> exists|i: int|
            0 <= i < k && dirs[i] && #[trigger] cands[i] == x,
    decreases k,
{
    if k > 0 {
        lemma_directory_mounts(cands, dirs, k - 1);
        let before = directory_mounts(cands, dirs, k - 1);
        lemma_with_absent(before, cands[k - 1]);
        assert forall|x: Seq<char>| #[trigger] directory_mounts(cands, dirs, k).contains(x) <==> exists|i: int|
            0 <= i < k && dirs[i] && #[trigger] cands[i] == x by {
            if directory_mounts(cands, dirs, k).contains(x) {
                if before.contains(x) {
                    let i = choose|i: int| 0 <= i < k - 1 && dirs[i] && #[trigger] cands[i] == x;
                    assert(0 <= i < k && dirs[i] && cands[i] == x);
                } else {
                    assert(0 <= k - 1 < k && dirs[k - 1] && cands[k - 1] == x);
                }
            }
            if exists|i: int| 0 <= i < k && dirs[i] && #[trigger] cands[i] == x {
                let i = choose|i: int| 0 <= i < k && dirs[i] && #[trigger] cands[i] == x;
                if i < k - 1 {
                    assert(before.contains(x));
                }
            }
        }
    }
}

/// The volumes read from a mount table (see `mount_point_list`): the
/// candidates of `mount_candidates`, whether each is a directory, and whether
/// the root exists, as the disk tells. Each volume appears once; the root is
/// among them when it exists; every other one is a candidate that is a
/// directory.
pub fn mount_point_volumes(candidates: &Vec<String>, is_dir: &Vec<bool>, root_exists: bool) -> (r: Vec<String>)
    requires
        is_dir@.len() == candidates@.len(),
    ensures
        crate::text::string_views(r@) == mount_point_list(crate::text::string_views(candidates@), is_dir@, root_exists),
        crate::text::string_views(r@).no_duplicates(),
        forall|p: Seq<char>| #[trigger] crate::text::string_views(r@).contains(p) <==> (exists|i: int|
            0 <= i < candidates@.len() && is_dir@[i] && #[trigger] crate::text::string_views(candidates@)[i] == p)
            || (root_exists && p == "/"@),
{
    let ghost cands = crate::text::string_views(candidates@);
    let mut volumes: Vec<String> = Vec::new();
    let n = candidates.len();
    for i in 0..n
        invariant
            n == candidates@.len(),
            n == is_dir@.len(),
            cands == crate::text::string_views(candidates@),
            crate::text::string_views(volumes@) == directory_mounts(cands, is_dir@, i as int),
    {
        if is_dir[i] {
            add_root_if_absent(&mut volumes, &candidates[i]);
        }
    }
    let root = String::from_str("/");
    proof {
        reveal_strlit("/");
    }
    if root_exists {
        add_root_if_absent(&mut volumes, &root);
    }
    proof {
        lemma_directory_mounts(cands, is_dir@, n as int);
        let v = directory_mounts(cands, is_dir@, n as int);
        lemma_with_absent(v, "/"@);
    }
    volumes
}

/// The set of volumes gathered from the mount points `mounts` (or the root
/// alone when there are none and it exists) and the folders `extra` found
/// under the usual mount folders.
pub open spec fn volume_list_set(mounts: Seq<Seq<char>>, root_exists: bool, extra: Seq<Seq<char>>) -> Set<Seq<char>> {
    let base = if mounts.len() == 0 && root_exists {
        seq!["/"@]
    } else {
        mounts
    };
    base.to_set() + extra.to_set()
}

/// Gathers the volume list: the mount points, or the root when there are none
/// and it exists, then the folders in `extra`; sorted by their text, each once.
pub fn gathered_volumes(mount_points: Vec<String>, root_exists: bool, extra: &Vec<String>) -> (r: Vec<String>)
    ensures
        strictly_sorted(crate::text::string_views(r@)),
        crate::text::string_views(r@).to_set() == volume_list_set(
            crate::text::string_views(mount_points@),
            root_exists,
            crate::text::string_views(extra@),
        ),
{
    let ghost mv = crate::text::string_views(mount_points@);
    let ghost ev = crate::text::string_views(extra@);
    let ghost base = if mv.len() == 0 && root_exists {
        seq!["/"@]
    } else {
        mv
    };
    let mut volumes = mount_points;
    if volumes.len() == 0 && root_exists {
        let root = String::from_str("/");
        proof {
            reveal_strlit("/");
        }
        volumes.push(root);
        assert(crate::text::string_views(volumes@) =~= base);
    }
    assert(ev.take(0).to_set() =~= Set::<Seq<char>>::empty());
    assert(crate::text::string_views(volumes@).to_set() =~= base.to_set() + ev.take(0).to_set());
    let n = extra.len();
    for i in 0..n
        invariant
            n == extra@.len(),
            ev == crate::text::string_views(extra@),
            crate::text::string_views(volumes@).to_set() == base.to_set() + ev.take(i as int).to_set(),
    {
        let ghost before = crate::text::string_views(volumes@);
        add_root_if_absent(&mut volumes, &extra[i]);
        proof {
            let e = ev[i as int];
            assert(ev.take(i + 1) =~= ev.take(i as int).push(e));
            ev.take(i as int).lemma_push_to_set_commute(e);
            before.lemma_push_to_set_commute(e);
            if before.contains(e) {
                assert(before.to_set().insert(e) =~= before.to_set());
            }
            assert(crate::text::string_views(volumes@).to_set() =~= base.to_set() + ev.take(i + 1).to_set());
        }
    }
    assert(ev.take(n as int) =~= ev);
    sorted_volumes(volumes)
}

/// The volume list holds the root when it exists and every folder found under
/// the mount folders; everything in it is the root, a candidate mount point
/// that is a directory, or one of those folders.
pub proof fn law_volume_list_contents(
    cands: Seq<Seq<char>>,
    dirs: Seq<bool>,
    root_exists: bool,
    extra: Seq<Seq<char>>,
)
    requires
        dirs.len() == cands.len(),
    ensures
        ({
            let v = volume_list_set(mount_point_list(cands, dirs, root_exists), root_exists, extra);
            &&& root_exists ==> v.contains("/"@)
            &&& forall|e: Seq<char>| extra.contains(e) ==> #[trigger] v.contains(e)
            &&& forall|p: Seq<char>| #[trigger] v.contains(p) ==> (root_exists && p == "/"@) || extra.contains(p)
                || exists|i: int| 0 <= i < cands.len() && dirs[i] && #[trigger] cands[i] == p
        }),
{
    let n = cands.len() as int;
    lemma_directory_mounts(cands, dirs, n);
    let d = directory_mounts(cands, dirs, n);
    lemma_with_absent(d, "/"@);
    let m = mount_point_list(cands, dirs, root_exists);
    if root_exists {
        assert(m.contains("/"@));
    }
}

/// `str::to_lowercase`: the string with every character mapped to its
/// Unicode lower case.
pub uninterp spec fn lowercase(s: Seq<char>) -> Seq<char>;

/// Lower-cases a string with `str::to_lowercase`.
/// Trusted: the result is `lowercase` of the argument.
#[verifier::external_body]
fn to_lowercase(s: &str) -> (r: String)
    ensures
        r@ == lowercase(s@),
{
    s.to_lowercase()
}

/// An entry with the text it is ordered by.
pub type Keyed = (EntryView, Seq<char>);

/// Directory order on keyed entries: folders before everything else, then by
/// key.
pub open spec fn keyed_before(a: Keyed, b: Keyed) -> bool {
    (a.0.is_dir && !b.0.is_dir) || (a.0.is_dir == b.0.is_dir && lex_lt(a.1, b.1))
}

/// The keyed entries that the order cannot tell apart from the folder flag
/// `d` and key `k`.
pub open spec fn keyed_class(d: bool, k: Seq<char>) -> spec_fn(Keyed) -> bool {
    |x: Keyed| x.0.is_dir == d && x.1 == k
}

/// No keyed entry goes before one that precedes it.
pub open spec fn in_keyed_order(s: Seq<Keyed>) -> bool {
    forall|i: int, j: int| 0 <= i < j < s.len() ==> !keyed_before(#[trigger] s[j], #[trigger] s[i])
}

/// The entries paired with their keys.
pub open spec fn keyed_views(entries: Seq<EntryItem>, keys: Seq<String>) -> Seq<Keyed> {
    Seq::new(entries.len(), |i: int| (entries[i]@, keys[i]@))
}

/// Directory order: folders before everything else, then by lower-cased name.
pub open spec fn goes_before(a: EntryView, b: EntryView) -> bool {
    keyed_before((a, lowercase(a.name)), (b, lowercase(b.name)))
}

/// The entries that directory order cannot tell apart from a folder flag `d`
/// and lower-cased name `k`.
pub open spec fn key_class(d: bool, k: Seq<char>) -> spec_fn(EntryView) -> bool {
    |e: EntryView| e.is_dir == d && lowercase(e.name) == k
}

/// No entry goes before one that precedes it.
pub open spec fn in_directory_order(s: Seq<EntryView>) -> bool {
    forall|i: int, j: int| 0 <= i < j < s.len() ==> !goes_before(#[trigger] s[j], #[trigger] s[i])
}

proof fn lemma_keyed_irreflexive(a: Keyed)
    ensures
        !keyed_before(a, a),
{
    lemma_lex_irreflexive(a.1);
}

proof fn lemma_keyed_transitive(a: Keyed, b: Keyed, c: Keyed)
    requires
        keyed_before(a, b),
        keyed_before(b, c),
    ensures
        keyed_before(a, c),
{
    if a.0.is_dir == b.0.is_dir && b.0.is_dir == c.0.is_dir {
        lemma_lex_transitive(a.1, b.1, c.1);
    }
}

/// A strict weak order: what goes before `y` goes before everything that `y`
/// does not follow.
proof fn lemma_keyed_weak(x: Keyed, y: Keyed, z: Keyed)
    requires
        keyed_before(x, y),
        !keyed_before(z, y),
    ensures
        keyed_before(x, z),
{
    lemma_lex_total(z.1, y.1);
    if x.0.is_dir == y.0.is_dir && y.0.is_dir == z.0.is_dir && lex_lt(y.1, z.1) {
        lemma_lex_transitive(x.1, y.1, z.1);
    }
}

proof fn lemma_filter_none<A>(s: Seq<A>, p: spec_fn(A) -> bool)
    requires
        forall|t: int| 0 <= t < s.len() ==> !p(#[trigger] s[t]),
    ensures
        s.filter(p) == Seq::<A>::empty(),
    decreases s.len(),
{
    reveal(Seq::filter);
    if s.len() > 0 {
        lemma_filter_none(s.drop_last(), p);
    }
}

proof fn lemma_filter_insert<A>(s: Seq<A>, j: int, x: A, p: spec_fn(A) -> bool)
    requires
        0 <= j <= s.len(),
    ensures
        s.insert(j, x).filter(p) == s.take(j).filter(p) + (if p(x) {
            seq![x]
        } else {
            Seq::<A>::empty()
        }) + s.skip(j).filter(p),
{
    assert(s.insert(j, x) =~= s.take(j) + seq![x] + s.skip(j));
    Seq::filter_distributes_over_add(s.take(j) + seq![x], s.skip(j), p);
    Seq::filter_distributes_over_add(s.take(j), seq![x], p);
    Seq::<A>::empty().lemma_filter_push(x, p);
    assert(Seq::<A>::empty().push(x) == seq![x]);
    reveal(Seq::filter);
    assert(Seq::<A>::empty().filter(p) == Seq::<A>::empty());
    assert(s =~= s.take(j) + s.skip(j));
}

fn keyed_before_exec(ad: bool, ak: &Vec<char>, bd: bool, bk: &Vec<char>) -> (r: bool)
    ensures
        r == ((ad && !bd) || (ad == bd && lex_lt(ak@, bk@))),
{
    (ad && !bd) || (ad == bd && lex_less(ak, bk))
}

/// The entries ordered by folder flag and key, each with its key: folders
/// first, then by key; entries that the order cannot tell apart keep their
/// order.
pub fn order_entries_by_keys(entries: Vec<EntryItem>, keys: Vec<String>) -> (r: (Vec<EntryItem>, Vec<String>))
    requires
        entries@.len() == keys@.len(),
    ensures
        r.0@.len() == r.1@.len(),
        in_keyed_order(keyed_views(r.0@, r.1@)),
        forall|d: bool, k: Seq<char>|
            #![trigger keyed_class(d, k)]
            keyed_views(r.0@, r.1@).filter(keyed_class(d, k)) == keyed_views(entries@, keys@).filter(keyed_class(d, k)),
{
    let ghost input = keyed_views(entries@, keys@);
    let mut r: Vec<EntryItem> = Vec::new();
    let mut rk: Vec<String> = Vec::new();
    let mut chars: Vec<Vec<char>> = Vec::new();
    let n = entries.len();
    for i in 0..n
        invariant
            n == entries@.len(),
            n == keys@.len(),
            input == keyed_views(entries@, keys@),
            rk@.len() == r@.len(),
            chars@.len() == r@.len(),
            forall|t: int| 0 <= t < r@.len() ==> #[trigger] chars@[t]@ == rk@[t]@,
            in_keyed_order(keyed_views(r@, rk@)),
            forall|d: bool, k: Seq<char>|
                #![trigger keyed_class(d, k)]
                keyed_views(r@, rk@).filter(keyed_class(d, k)) == input.take(i as int).filter(keyed_class(d, k)),
    {
        let item = entries[i].duplicate();
        let key = keys[i].clone();
        let xk = to_chars(key.as_str());
        let xd = item.is_dir;
        let ghost x: Keyed = (item@, key@);
        assert(input[i as int] == x);
        let ghost rv = keyed_views(r@, rk@);
        let m = r.len();
        let mut j: usize = 0;
        while j < m && !keyed_before_exec(xd, &xk, r[j].is_dir, &chars[j])
            invariant
                j <= m,
                m == r@.len(),
                rk@.len() == m,
                chars@.len() == m,
                rv == keyed_views(r@, rk@),
                x == (item@, key@),
                xk@ == key@,
                xd == item.is_dir,
                forall|t: int| 0 <= t < m ==> #[trigger] chars@[t]@ == rk@[t]@,
                forall|t: int| 0 <= t < j ==> !keyed_before(x, #[trigger] rv[t]),
            decreases m - j,
        {
            assert(rv[j as int] == (r@[j as int]@, rk@[j as int]@));
            j = j + 1;
        }
        proof {
            if j < m {
                assert(rv[j as int] == (r@[j as int]@, rk@[j as int]@));
                assert(keyed_before(x, rv[j as int]));
            }
        }
        let ghost old_chars = chars@;
        let ghost old_r = r@;
        let ghost old_rk = rk@;
        r.insert(j, item);
        rk.insert(j, key);
        chars.insert(j, xk);
        let ghost nv = keyed_views(r@, rk@);
        assert(nv =~= rv.insert(j as int, x)) by {
            assert forall|t: int| 0 <= t < nv.len() implies nv[t] == rv.insert(j as int, x)[t] by {
                if t < j {
                    assert(r@[t] == old_r[t] && rk@[t] == old_rk[t]);
                } else if t > j {
                    assert(r@[t] == old_r[t - 1] && rk@[t] == old_rk[t - 1]);
                }
            }
        }
        assert forall|t: int| 0 <= t < r@.len() implies #[trigger] chars@[t]@ == rk@[t]@ by {
            if t < j {
                assert(chars@[t] == old_chars[t] && rk@[t] == old_rk[t]);
            } else if t > j {
                assert(chars@[t] == old_chars[t - 1] && rk@[t] == old_rk[t - 1]);
            }
        }
        assert forall|a: int, b: int| 0 <= a < b < nv.len() implies !keyed_before(#[trigger] nv[b], #[trigger] nv[a]) by {
            if b < j {
                assert(nv[a] == rv[a] && nv[b] == rv[b]);
            } else if b == j {
                assert(nv[b] == x && nv[a] == rv[a]);
            } else if a == j {
                assert(nv[a] == x && nv[b] == rv[b - 1]);
                if keyed_before(rv[b - 1], x) {
                    lemma_keyed_transitive(rv[b - 1], x, rv[j as int]);
                    if b - 1 == j {
                        lemma_keyed_irreflexive(rv[j as int]);
                    }
                }
            } else if a < j {
                assert(nv[a] == rv[a] && nv[b] == rv[b - 1]);
            } else {
                assert(nv[a] == rv[a - 1] && nv[b] == rv[b - 1]);
            }
        }
        assert(input.take(i + 1) == input.take(i as int).push(x));
        assert forall|d: bool, k: Seq<char>|
            #![trigger keyed_class(d, k)]
            nv.filter(keyed_class(d, k)) == input.take(i + 1).filter(keyed_class(d, k)) by {
            let p = keyed_class(d, k);
            lemma_filter_insert(rv, j as int, x, p);
            input.take(i as int).lemma_filter_push(x, p);
            Seq::filter_distributes_over_add(rv.take(j as int), rv.skip(j as int), p);
            assert(rv =~= rv.take(j as int) + rv.skip(j as int));
            if p(x) {
                assert forall|t: int| 0 <= t < rv.skip(j as int).len() implies !p(#[trigger] rv.skip(j as int)[t]) by {
                    let e = rv.skip(j as int)[t];
                    assert(e == rv[j + t]);
                    if t > 0 {
                        assert(!keyed_before(rv[j + t], rv[j as int]));
                        lemma_keyed_weak(x, rv[j as int], e);
                    }
                    assert(keyed_before(x, e));
                    lemma_keyed_irreflexive(x);
                }
                lemma_filter_none(rv.skip(j as int), p);
                assert(rv.skip(j as int).filter(p) + Seq::<Keyed>::empty() == rv.skip(j as int).filter(p));
            }
        }
    }
    assert(input.take(n as int) == input);
    (r, rk)
}

/// Every keyed entry carries its lower-cased name.
pub open spec fn keyed_by_lowercase(s: Seq<Keyed>) -> bool {
    forall|t: int| 0 <= t < s.len() ==> #[trigger] s[t].1 == lowercase(s[t].0.name)
}

pub open spec fn fst_of(s: Seq<Keyed>) -> Seq<EntryView> {
    s.map_values(|x: Keyed| x.0)
}

/// Keys that every class agrees on carry over: if two sequences hold the
/// same members of every class, and the keys of one are the lower-cased
/// names, so are the keys of the other.
proof fn lemma_classes_keep_lowercase(a: Seq<Keyed>, b: Seq<Keyed>)
    requires
        keyed_by_lowercase(b),
        forall|d: bool, k: Seq<char>|
            #![trigger keyed_class(d, k)]
            a.filter(keyed_class(d, k)) == b.filter(keyed_class(d, k)),
    ensures
        keyed_by_lowercase(a),
{
    assert forall|t: int| 0 <= t < a.len() implies #[trigger] a[t].1 == lowercase(a[t].0.name) by {
        let x = a[t];
        let c = keyed_class(x.0.is_dir, x.1);
        a.lemma_filter_contains(c, t);
        assert(a.filter(c) == b.filter(c));
        b.lemma_filter_contains_rev(c, x);
        let u = choose|u: int| 0 <= u < b.len() && b[u] == x;
        assert(b[u].1 == lowercase(b[u].0.name));
    }
}

/// With lower-cased names as keys, a class of keyed entries is a class of
/// entries.
proof fn lemma_class_projection(s: Seq<Keyed>, d: bool, k: Seq<char>)
    requires
        keyed_by_lowercase(s),
    ensures
        fst_of(s.filter(keyed_class(d, k))) == fst_of(s).filter(key_class(d, k)),
    decreases s.len(),
{
    reveal(Seq::filter);
    if s.len() > 0 {
        let rest = s.drop_last();
        assert(keyed_by_lowercase(rest)) by {
            assert forall|t: int| 0 <= t < rest.len() implies #[trigger] rest[t].1 == lowercase(rest[t].0.name) by {
                assert(rest[t] == s[t]);
            }
        }
        lemma_class_projection(rest, d, k);
        assert(fst_of(s).drop_last() == fst_of(rest));
        assert(s.last().1 == lowercase(s.last().0.name));
        let sub = rest.filter(keyed_class(d, k));
        if keyed_class(d, k)(s.last()) {
            assert(fst_of(sub.push(s.last())) == fst_of(sub).push(s.last().0));
        }
    }
}

/// The entries in directory order: folders first, then by lower-cased name;
/// entries that the order cannot tell apart keep their order.
pub fn order_entries(entries: Vec<EntryItem>) -> (r: Vec<EntryItem>)
    ensures
        in_directory_order(entry_views(r@)),
        forall|d: bool, k: Seq<char>|
            #![trigger key_class(d, k)]
            entry_views(r@).filter(key_class(d, k)) == entry_views(entries@).filter(key_class(d, k)),
{
    let ghost ev = entry_views(entries@);
    let mut keys: Vec<String> = Vec::new();
    let n = entries.len();
    for i in 0..n
        invariant
            n == entries@.len(),
            keys@.len() == i,
            forall|t: int| 0 <= t < i ==> #[trigger] keys@[t]@ == lowercase(entries@[t].name@),
    {
        keys.push(to_lowercase(entries[i].name.as_str()));
    }
    let ghost input = keyed_views(entries@, keys@);
    let (sorted, sorted_keys) = order_entries_by_keys(entries, keys);
    let ghost out = keyed_views(sorted@, sorted_keys@);
    proof {
        assert(keyed_by_lowercase(input));
        lemma_classes_keep_lowercase(out, input);
        assert(fst_of(out) =~= entry_views(sorted@));
        assert(fst_of(input) =~= ev);
        assert forall|i: int, j: int| 0 <= i < j < entry_views(sorted@).len() implies !goes_before(
            #[trigger] entry_views(sorted@)[j],
            #[trigger] entry_views(sorted@)[i],
        ) by {
            assert(entry_views(sorted@)[i] == out[i].0);
            assert(entry_views(sorted@)[j] == out[j].0);
            assert(!keyed_before(out[j], out[i]));
        }
        assert forall|d: bool, k: Seq<char>|
            #![trigger key_class(d, k)]
            entry_views(sorted@).filter(key_class(d, k)) == ev.filter(key_class(d, k)) by {
            lemma_class_projection(out, d, k);
            lemma_class_projection(input, d, k);
            assert(out.filter(keyed_class(d, k)) == input.filter(keyed_class(d, k)));
        }
    }
    sorted
}

/// `String::from_utf8_lossy`: the text of `bytes` read as UTF-8, every
/// invalid sequence replaced by U+FFFD.
pub uninterp spec fn utf8_lossy(bytes: Seq<u8>) -> Seq<char>;

/// Decodes bytes with `String::from_utf8_lossy`.
/// Trusted: the result is `utf8_lossy` of the bytes, and exactly the decoded
/// text when the bytes are valid UTF-8.
#[verifier::external_body]
fn from_utf8_lossy(bytes: &[u8]) -> (r: String)
    ensures
        r@ == utf8_lossy(bytes@),
        vstd::utf8::valid_utf8(bytes@) ==> r@ == vstd::utf8::decode_utf8(bytes@),
{
    String::from_utf8_lossy(bytes).into_owned()
}

/// The index of the last dot in `s`.
pub open spec fn last_dot(s: Seq<char>) -> Option<int>
    decreases s.len(),
{
    if s.len() == 0 {
        None
    } else if s.last() == '.' {
        Some(s.len() - 1)
    } else {
        last_dot(s.drop_last())
    }
}

/// `Path::extension` of a file name: the text after its last dot, unless the
/// only dot opens the name (or the name is `..`).
pub open spec fn extension_of(name: Seq<char>) -> Option<Seq<char>> {
    if name == seq!['.', '.'] {
        None
    } else {
        match last_dot(name) {
            None => None,
            Some(k) => if k == 0 {
                None
            } else {
                Some(name.skip(k + 1))
            },
        }
    }
}

/// `Path::file_stem` of a file name, or the name itself when it has none: the
/// text before its last dot, unless the only dot opens the name.
pub open spec fn stem_of(name: Seq<char>) -> Seq<char> {
    if name == seq!['.', '.'] {
        name
    } else {
        match last_dot(name) {
            None => name,
            Some(k) => if k == 0 {
                name
            } else {
                name.take(k)
            },
        }
    }
}

proof fn lemma_last_dot(s: Seq<char>)
    ensures
        last_dot(s) matches Some(k) ==> 0 <= k < s.len() && s[k] == '.',
    decreases s.len(),
{
    if s.len() > 0 && s.last() != '.' {
        lemma_last_dot(s.drop_last());
    }
}

/// The index of the last dot of `cs`.
fn find_last_dot(cs: &Vec<char>) -> (r: Option<usize>)
    ensures
        match last_dot(cs@) {
            Some(k) => r == Some(k as usize),
            None => r is None,
        },
{
    let mut i = cs.len();
    assert(cs@.take(i as int) == cs@);
    while i > 0
        invariant
            i <= cs@.len(),
            last_dot(cs@) == last_dot(cs@.take(i as int)),
        decreases i,
    {
        assert(cs@.take(i as int).drop_last() == cs@.take(i - 1));
        assert(cs@.take(i as int).last() == cs@[i - 1]);
        if cs[i - 1] == '.' {
            return Some(i - 1);
        }
        i = i - 1;
    }
    assert(cs@.take(0) == Seq::<char>::empty());
    None
}

/// The stem and extension of a file name (see `stem_of` and `extension_of`).
fn stem_and_extension(cs: &Vec<char>) -> (r: (Vec<char>, Option<Vec<char>>))
    ensures
        r.0@ == stem_of(cs@),
        match extension_of(cs@) {
            Some(e) => r.1 matches Some(x) && x@ == e,
            None => r.1 is None,
        },
{
    proof {
        lemma_last_dot(cs@);
    }
    if cs.len() == 2 && cs[0] == '.' && cs[1] == '.' {
        assert(cs@ == seq!['.', '.']);
        return (cs.clone(), None);
    }
    assert(cs@ != seq!['.', '.']);
    match find_last_dot(cs) {
        None => (cs.clone(), None),
        Some(k) => {
            if k == 0 {
                (cs.clone(), None)
            } else {
                let mut stem: Vec<char> = Vec::new();
                for i in 0..k
                    invariant
                        k < cs@.len(),
                        stem@ == cs@.take(i as int),
                {
                    stem.push(cs[i]);
                    assert(cs@.take(i + 1) == cs@.take(i as int).push(cs@[i as int]));
                }
                let mut ext: Vec<char> = Vec::new();
                let n = cs.len();
                for i in k + 1..n
                    invariant
                        k < n,
                        n == cs@.len(),
                        ext@ == cs@.subrange(k + 1, i as int),
                {
                    ext.push(cs[i]);
                    assert(cs@.subrange(k + 1, i + 1) == cs@.subrange(k + 1, i as int).push(cs@[i as int]));
                }
                assert(cs@.subrange(k + 1, n as int) == cs@.skip(k + 1));
                (stem, Some(ext))
            }
        },
    }
}

/// Whether a file name has the extension `zip`, in any case.
pub open spec fn is_zip_name(name: Seq<char>) -> bool {
    match extension_of(name) {
        Some(e) => e.len() == 3 && crate::chars::spec_to_ascii_lowercase(e[0]) == 'z'
            && crate::chars::spec_to_ascii_lowercase(e[1]) == 'i'
            && crate::chars::spec_to_ascii_lowercase(e[2]) == 'p',
        None => false,
    }
}

/// Whether the file `file_name` is previewed as a ZIP archive.
pub fn is_zip_file(file_name: &str) -> (r: bool)
    ensures
        r == is_zip_name(file_name@),
{
    let cs = to_chars(file_name);
    let (_, ext) = stem_and_extension(&cs);
    match ext {
        Some(e) => e.len() == 3 && crate::chars::to_ascii_lowercase(e[0]) == 'z'
            && crate::chars::to_ascii_lowercase(e[1]) == 'i'
            && crate::chars::to_ascii_lowercase(e[2]) == 'p',
        None => false,
    }
}

/// The preview made of decoded text: passed through `sanitized_char` when
/// `sanitize`, and followed by a note when the file was cut.
pub open spec fn finished_text(decoded: Seq<char>, cut: bool, sanitize: bool) -> Seq<char> {
    let text = if sanitize {
        decoded.map_values(|c: char| crate::text::sanitized_char(c))
    } else {
        decoded
    };
    if cut {
        text + "\n... (zkráceno)"@
    } else {
        text
    }
}

/// The text preview of `bytes`: at most `max_bytes` of them decoded (see
/// `utf8_lossy`), then finished (see `finished_text`).
pub open spec fn text_preview(bytes: Seq<u8>, max_bytes: nat, sanitize: bool) -> Seq<char> {
    let cut = bytes.len() > max_bytes;
    let shown = if cut {
        bytes.take(max_bytes as int)
    } else {
        bytes
    };
    finished_text(utf8_lossy(shown), cut, sanitize)
}

/// Finishes a text preview from the decoded text (see `finished_text`).
pub fn finish_text_preview(decoded: String, cut: bool, sanitize: bool) -> (r: String)
    ensures
        r@ == finished_text(decoded@, cut, sanitize),
{
    let mut text = if sanitize {
        sanitize_preview_text(decoded.as_str())
    } else {
        decoded
    };
    if cut {
        push_str(&mut text, "\n... (zkráceno)");
    }
    text
}

/// The preview of a file's `bytes`: the archive listing for a ZIP file, the
/// text otherwise.
pub open spec fn preview_outcome(
    path: Seq<char>,
    file_name: Seq<char>,
    bytes: Seq<u8>,
    max_bytes: nat,
    sanitize: bool,
    texts: (Seq<char>, Seq<char>, Seq<char>, Seq<char>),
) -> Option<Seq<char>> {
    if is_zip_name(file_name) {
        match zip_listing(bytes) {
            None => None,
            Some(es) => zip_preview_text(path, es, texts.0, texts.1, texts.2, texts.3),
        }
    } else {
        Some(text_preview(bytes, max_bytes, sanitize))
    }
}

/// Previews the contents `bytes` of the file at `path` named `file_name`
/// (see `preview_outcome`); `sanitize` blanks control characters in text.
pub fn preview_file(
    path: &str,
    file_name: &str,
    bytes: Vec<u8>,
    max_bytes: usize,
    sanitize: bool,
    texts: &ZipTexts,
) -> (r: Result<String, String>)
    ensures
        match preview_outcome(path@, file_name@, bytes@, max_bytes as nat, sanitize, (texts.empty@, texts.header@, texts.encrypted@, texts.more@)) {
            Some(t) => r matches Ok(s) && s@ == t,
            None => r is Err,
        },
{
    if is_zip_file(file_name) {
        return zip_preview(path, bytes, texts);
    }
    let ghost all = bytes@;
    let cut = bytes.len() > max_bytes;
    let mut shown = bytes;
    if cut {
        shown.truncate(max_bytes);
    }
    assert(shown@ == if cut { all.take(max_bytes as int) } else { all });
    let decoded = from_utf8_lossy(shown.as_slice());
    Ok(finish_text_preview(decoded, cut, sanitize))
}

/// The texts of this module's ZIP previews.
pub fn zip_texts() -> (r: ZipTexts)
    ensures
        r.empty@ == "ZIP archive je prázdný."@,
        r.header@ == "ZIP archiv: "@,
        r.encrypted@ == "Archiv je zašifrovaný."@,
        r.more@ == "... (více zápisů)"@,
{
    ZipTexts {
        empty: "ZIP archive je prázdný.",
        header: "ZIP archiv: ",
        encrypted: "Archiv je zašifrovaný.",
        more: "... (více zápisů)",
    }
}

/// The listing of the ZIP archive in `bytes`, shown as `path`.
pub fn read_zip_preview(path: &str, bytes: Vec<u8>) -> (r: Result<String, String>)
    ensures
        match zip_listing(bytes@) {
            None => r is Err,
            Some(es) => match zip_preview_text(path@, es, "ZIP archive je prázdný."@, "ZIP archiv: "@, "Archiv je zašifrovaný."@, "... (více zápisů)"@) {
                Some(t) => r matches Ok(s) && s@ == t,
                None => r is Err,
            },
        },
{
    zip_preview(path, bytes, &zip_texts())
}

/// The preview of a file from its contents: the listing of a ZIP archive, or
/// at most `max_bytes` of text with control characters blanked.
pub fn read_preview(path: &str, file_name: &str, bytes: Vec<u8>, max_bytes: usize) -> (r: Result<String, String>)
    ensures
        match preview_outcome(path@, file_name@, bytes@, max_bytes as nat, true, ("ZIP archive je prázdný."@, "ZIP archiv: "@, "Archiv je zašifrovaný."@, "... (více zápisů)"@)) {
            Some(t) => r matches Ok(s) && s@ == t,
            None => r is Err,
        },
{
    preview_file(path, file_name, bytes, max_bytes, true, &zip_texts())
}

/// The largest attempt when looking for a free name for a pasted copy; it is
/// used without asking whether the name is free.
pub const LAST_COPY_ATTEMPT: usize = 1000;

/// The name tried at `attempt` when pasting `name` into a folder: the name
/// itself first, then `stem_copyN.ext` (or `stem_copyN` without extension)
/// for `N` from 1 to 999, and at last `stem_copy_final`.
pub open spec fn copy_name(name: Seq<char>, attempt: nat) -> Seq<char> {
    let stem = stem_of(name);
    let ext = match extension_of(name) {
        Some(e) => e,
        None => Seq::empty(),
    };
    if attempt == 0 {
        name
    } else if attempt < 1000 {
        if ext.len() == 0 {
            stem + "_copy"@ + decimal(attempt)
        } else {
            stem + "_copy"@ + decimal(attempt) + "."@ + ext
        }
    } else {
        stem + "_copy_final"@
    }
}

/// The file name tried at `attempt` (see `copy_name`).
pub fn unique_destination_name(file_name: &str, attempt: usize) -> (r: String)
    ensures
        r@ == copy_name(file_name@, attempt as nat),
{
    let cs = to_chars(file_name);
    if attempt == 0 {
        return string_from_chars(&cs);
    }
    let (stem, ext) = stem_and_extension(&cs);
    let mut name = string_from_chars(&stem);
    if attempt < LAST_COPY_ATTEMPT {
        push_str(&mut name, "_copy");
        push_decimal(&mut name, attempt);
        match ext {
            Some(e) => {
                if e.len() > 0 {
                    push_str(&mut name, ".");
                    push_chars(&mut name, &e);
                }
            },
            None => {},
        }
    } else {
        push_str(&mut name, "_copy_final");
    }
    name
}

/// One step of the search for a free name: after trying `attempt`, whose name
/// is `taken` or not, the search stops (`None`) when the name is free or the
/// attempt is the last one, and goes on with the next attempt otherwise.
pub open spec fn copy_step(attempt: nat, taken: bool) -> Option<nat> {
    if !taken || attempt >= LAST_COPY_ATTEMPT {
        None
    } else {
        Some(attempt + 1)
    }
}

/// The attempt at which the search for a free name ends when it starts at
/// `attempt`; `taken(a)` tells whether the name of attempt `a` is taken.
pub open spec fn chosen_attempt(taken: spec_fn(nat) -> bool, attempt: nat) -> nat
    decreases LAST_COPY_ATTEMPT - attempt,
{
    match copy_step(attempt, taken(attempt)) {
        None => attempt,
        Some(next) => chosen_attempt(taken, next),
    }
}

/// Decides whether the search for a free name goes on after `attempt`, whose
/// name is `taken` or not (see `copy_step`).
pub fn next_copy_attempt(attempt: usize, taken: bool) -> (r: Option<usize>)
    ensures
        r == (if !taken || attempt >= LAST_COPY_ATTEMPT {
            None
        } else {
            Some((attempt + 1) as usize)
        }),
        match r {
            Some(n) => copy_step(attempt as nat, taken) == Some(n as nat),
            None => copy_step(attempt as nat, taken) is None,
        },
{
    if !taken || attempt >= LAST_COPY_ATTEMPT {
        None
    } else {
        Some(attempt + 1)
    }
}

proof fn lemma_chosen_attempt(taken: spec_fn(nat) -> bool, attempt: nat)
    requires
        attempt <= LAST_COPY_ATTEMPT,
    ensures
        attempt <= chosen_attempt(taken, attempt) <= LAST_COPY_ATTEMPT,
        chosen_attempt(taken, attempt) < LAST_COPY_ATTEMPT ==> !taken(chosen_attempt(taken, attempt)),
        forall|a: nat| attempt <= a < chosen_attempt(taken, attempt) ==> #[trigger] taken(a),
    decreases LAST_COPY_ATTEMPT - attempt,
{
    if taken(attempt) && attempt < LAST_COPY_ATTEMPT {
        lemma_chosen_attempt(taken, attempt + 1);
    }
}

/// The search for a free name, started at the first attempt, ends at the
/// first attempt whose name is free; when every name up to the last attempt
/// is taken, it ends at the last attempt.
pub proof fn law_chosen_copy_is_least_free(taken: spec_fn(nat) -> bool)
    ensures
        chosen_attempt(taken, 0) <= LAST_COPY_ATTEMPT,
        chosen_attempt(taken, 0) < LAST_COPY_ATTEMPT ==> !taken(chosen_attempt(taken, 0)),
        forall|a: nat| a < chosen_attempt(taken, 0) ==> #[trigger] taken(a),
{
    lemma_chosen_attempt(taken, 0);
}

proof fn lemma_decimal_nonempty(n: nat)
    ensures
        decimal(n).len() >= 1,
    decreases n,
{
    if n >= 10 {
        lemma_decimal_nonempty(n / 10);
    }
}

/// A pasted copy never takes the name of the copied file: every name tried
/// after the first differs from the file name.
pub proof fn law_copy_name_differs(name: Seq<char>, attempt: nat)
    requires
        attempt > 0,
    ensures
        copy_name(name, attempt) != name,
{
    reveal_strlit("_copy");
    reveal_strlit("_copy_final");
    reveal_strlit(".");
    lemma_last_dot(name);
    lemma_decimal_nonempty(attempt);
    let c = copy_name(name, attempt);
    if name != seq!['.', '.'] {
        match last_dot(name) {
            None => {
                assert(c.len() > name.len());
            },
            Some(k) => {
                if k > 0 {
                    let ext = name.skip(k + 1);
                    assert(ext.len() == name.len() - k - 1);
                    if attempt < 1000 && ext.len() == 0 {
                        assert(c.len() > name.len());
                    } else {
                        assert(c[k] == '_');
                        assert(name[k] == '.');
                    }
                } else {
                    assert(c.len() > name.len());
                }
            },
        }
    } else {
        assert(c.len() > name.len());
    }
}

} // verus!
