use vstd::prelude::*;
use vstd::string::StringExecFns;

use crate::order::chars_of;
use crate::store::push_char;

verus! {

/// A path separator on Windows.
pub open spec fn is_separator(c: char) -> bool {
    c == '\\' || c == '/'
}

/// A bare drive such as `C:`, to which Windows joins a relative path without
/// a separator.
pub open spec fn is_bare_drive(p: Seq<char>) -> bool {
    &&& p.len() == 2
    &&& (('a' <= p[0] <= 'z') || ('A' <= p[0] <= 'Z'))
    &&& p[1] == ':'
}

/// A name of one part, which `Path::join` appends as it is: not empty, with
/// no separator and no drive colon, and neither `.` nor `..`.
pub open spec fn is_plain_name(name: Seq<char>) -> bool {
    &&& name.len() > 0
    &&& forall|k: int| 0 <= k < name.len() ==> !is_separator(#[trigger] name[k]) && name[k] != ':'
    &&& name != seq!['.']
    &&& name != seq!['.', '.']
}

/// An ASCII letter, which can name a drive.
pub open spec fn is_letter(c: char) -> bool {
    ('a' <= c <= 'z') || ('A' <= c <= 'Z')
}

/// A path that starts with the verbatim prefix `\\?\`.
pub open spec fn has_verbatim_prefix(p: Seq<char>) -> bool {
    &&& p.len() >= 4
    &&& p[0] == '\\'
    &&& p[1] == '\\'
    &&& p[2] == '?'
    &&& p[3] == '\\'
}

/// How many characters of `s` come before its first backslash.
pub open spec fn piece_len(s: Seq<char>) -> nat
    decreases s.len(),
{
    if s.len() == 0 || s[0] == '\\' {
        0
    } else {
        1 + piece_len(s.drop_first())
    }
}

/// The length of the verbatim prefix of `p`: `\\?\UNC\server\share`,
/// `\\?\C:` when a separator or nothing follows the colon, or else `\\?\`
/// and the text up to the next backslash.
pub open spec fn verbatim_prefix_len(p: Seq<char>) -> int {
    let r = p.skip(4);
    if r.len() >= 4 && r[0] == 'U' && r[1] == 'N' && r[2] == 'C' && is_separator(r[3]) {
        let s = r.skip(4);
        let a = piece_len(s) as int;
        let after = if a < s.len() { s.skip(a + 1) } else { seq![] };
        let b = piece_len(after) as int;
        8 + a + if b > 0 { 1 + b } else { 0int }
    } else if r.len() >= 2 && is_letter(r[0]) && r[1] == ':' && (r.len() == 2 || is_separator(
        r[2],
    )) {
        6
    } else {
        4 + piece_len(r) as int
    }
}

/// What follows the verbatim prefix, without the separator of the root.
pub open spec fn verbatim_rest(p: Seq<char>) -> Seq<char> {
    let r = p.skip(verbatim_prefix_len(p));
    if r.len() > 0 && is_separator(r[0]) {
        r.drop_first()
    } else {
        r
    }
}

/// The non-empty parts of `s` split at backslashes (the only separator of a
/// verbatim path), after the partial part `cur`.
pub open spec fn parts_after(s: Seq<char>, cur: Seq<char>) -> Seq<Seq<char>>
    decreases s.len(),
{
    if s.len() == 0 {
        if cur.len() == 0 {
            seq![]
        } else {
            seq![cur]
        }
    } else if s[0] == '\\' {
        if cur.len() == 0 {
            parts_after(s.drop_first(), cur)
        } else {
            seq![cur] + parts_after(s.drop_first(), seq![])
        }
    } else {
        parts_after(s.drop_first(), cur.push(s[0]))
    }
}

/// The parts, each followed by a backslash.
pub open spec fn with_separators(parts: Seq<Seq<char>>) -> Seq<char>
    decreases parts.len(),
{
    if parts.len() == 0 {
        seq![]
    } else {
        with_separators(parts.drop_last()) + parts.last() + seq!['\\']
    }
}

/// `base` joined with the plain name `name`, as `Path::join` does it on
/// Windows. A `base` with a verbatim prefix is rebuilt from its parts: the
/// prefix, then each non-empty part between backslashes, then `name`, with
/// one backslash between each. Any other `base` is followed by a backslash
/// and `name`, unless it is empty, already ends with a separator, or is a
/// bare drive.
pub open spec fn joined_path(base: Seq<char>, name: Seq<char>) -> Seq<char> {
    if has_verbatim_prefix(base) {
        base.take(verbatim_prefix_len(base)) + seq!['\\'] + with_separators(
            parts_after(verbatim_rest(base), seq![]),
        ) + name
    } else if base.len() == 0 || is_separator(base.last()) || is_bare_drive(base) {
        base + name
    } else {
        base + seq!['\\'] + name
    }
}

/// The folder, under ProgramData, that holds the service and its data.
pub open spec fn program_folder(program_data: Seq<char>) -> Seq<char> {
    joined_path(program_data, "Lockdown.Service"@)
}

/// Where the service executable is installed.
pub open spec fn service_executable(program_data: Seq<char>) -> Seq<char> {
    joined_path(program_folder(program_data), "lockdown-service.exe"@)
}

/// Where the list of locked files is kept.
pub open spec fn data_file(program_data: Seq<char>) -> Seq<char> {
    joined_path(program_folder(program_data), "locked_files.txt"@)
}

/// Where the panel finds the service executable that it installs, relative
/// to its working directory.
pub open spec fn bundled_service_executable() -> Seq<char> {
    joined_path("Assets"@, "lockdown-service.exe"@)
}

proof fn lemma_piece_len_bound(s: Seq<char>)
    ensures
        piece_len(s) <= s.len(),
        piece_len(s) < s.len() ==> s[piece_len(s) as int] == '\\',
    decreases s.len(),
{
    if s.len() > 0 && s[0] != '\\' {
        lemma_piece_len_bound(s.drop_first());
    }
}

/// Where the piece of `b` that starts at `from` ends: at the next backslash,
/// or at the end.
fn piece_end(b: &Vec<char>, from: usize) -> (e: usize)
    requires
        from <= b@.len(),
    ensures
        e == from + piece_len(b@.skip(from as int)),
        e <= b@.len(),
{
    let n = b.len();
    let mut i = from;
    while i < n && b[i] != '\\'
        invariant
            from <= i <= n,
            n == b@.len(),
            piece_len(b@.skip(from as int)) == (i - from) + piece_len(b@.skip(i as int)),
        decreases n - i,
    {
        assert(b@.skip(i as int)[0] == b@[i as int]);
        assert(b@.skip(i as int).drop_first() =~= b@.skip(i + 1));
        i = i + 1;
    }
    if i < n {
        assert(b@.skip(i as int)[0] == b@[i as int]);
    }
    i
}

/// The length of the verbatim prefix of `b`.
fn verbatim_prefix_end(b: &Vec<char>) -> (p: usize)
    requires
        has_verbatim_prefix(b@),
    ensures
        p == verbatim_prefix_len(b@),
        p <= b@.len(),
{
    let n = b.len();
    let ghost r = b@.skip(4);
    if n >= 8 && b[4] == 'U' && b[5] == 'N' && b[6] == 'C' && (b[7] == '\\' || b[7] == '/') {
        let ghost s = r.skip(4);
        assert(s =~= b@.skip(8));
        let a_end = piece_end(b, 8);
        proof {
            lemma_piece_len_bound(s);
        }
        if a_end < n {
            assert(s.skip(a_end - 8 + 1) =~= b@.skip(a_end + 1));
            let b_end = piece_end(b, a_end + 1);
            if b_end > a_end + 1 {
                b_end
            } else {
                a_end
            }
        } else {
            a_end
        }
    } else if n >= 6 && (('a' <= b[4] && b[4] <= 'z') || ('A' <= b[4] && b[4] <= 'Z')) && b[5]
        == ':' && (n == 6 || b[6] == '\\' || b[6] == '/') {
        6
    } else {
        let e = piece_end(b, 4);
        e
    }
}

/// `base` joined with the plain name `name` by the rule of Windows.
pub fn join_path(base: &str, name: &str) -> (r: String)
    requires
        is_plain_name(name@),
    ensures
        r@ == joined_path(base@, name@),
{
    let b = chars_of(base);
    let n = b.len();
    if n >= 4 && b[0] == '\\' && b[1] == '\\' && b[2] == '?' && b[3] == '\\' {
        let p = verbatim_prefix_end(&b);
        let mut r = String::new();
        let mut k: usize = 0;
        while k < p
            invariant
                k <= p <= n,
                n == b@.len(),
                r@ == b@.take(k as int),
            decreases p - k,
        {
            push_char(&mut r, b[k]);
            assert(b@.take(k + 1) =~= b@.take(k as int).push(b@[k as int]));
            k = k + 1;
        }
        push_char(&mut r, '\\');
        let ghost head = b@.take(p as int) + seq!['\\'];
        let mut i = p;
        if i < n && (b[i] == '\\' || b[i] == '/') {
            i = i + 1;
        }
        let ghost rest = verbatim_rest(b@);
        assert(rest =~= b@.skip(i as int));
        let ghost mut done: Seq<Seq<char>> = seq![];
        let ghost mut cur: Seq<char> = seq![];
        let mut in_part = false;
        assert(r@ =~= head + with_separators(done) + cur);
        while i < n
            invariant
                i <= n,
                n == b@.len(),
                parts_after(rest, seq![]) == done + parts_after(b@.skip(i as int), cur),
                r@ == head + with_separators(done) + cur,
                in_part == (cur.len() > 0),
            decreases n - i,
        {
            let c = b[i];
            assert(b@.skip(i as int)[0] == c);
            assert(b@.skip(i as int).drop_first() =~= b@.skip(i + 1));
            if c == '\\' {
                if in_part {
                    push_char(&mut r, '\\');
                    proof {
                        assert(done + (seq![cur] + parts_after(b@.skip(i + 1), seq![]))
                            =~= done.push(cur) + parts_after(b@.skip(i + 1), seq![]));
                        assert(done.push(cur).drop_last() =~= done);
                        done = done.push(cur);
                        cur = seq![];
                    }
                    in_part = false;
                }
            } else {
                push_char(&mut r, c);
                proof {
                    cur = cur.push(c);
                }
                in_part = true;
            }
            i = i + 1;
        }
        if in_part {
            push_char(&mut r, '\\');
            proof {
                assert(done.push(cur).drop_last() =~= done);
                done = done.push(cur);
                cur = seq![];
            }
        }
        assert(parts_after(rest, seq![]) =~= done);
        r.append(name);
        r
    } else {
        let mut r = String::from_str(base);
        let mut sep = n > 0;
        if n > 0 {
            let last = b[n - 1];
            if last == '\\' || last == '/' {
                sep = false;
            }
        }
        if n == 2 {
            let d = b[0];
            if (('a' <= d && d <= 'z') || ('A' <= d && d <= 'Z')) && b[1] == ':' {
                sep = false;
            }
        }
        if sep {
            proof {
                reveal_strlit("\\");
            }
            r.append("\\");
        }
        r.append(name);
        r
    }
}

proof fn lemma_plain_folder_name()
    ensures
        is_plain_name("Lockdown.Service"@),
{
    reveal_strlit("Lockdown.Service");
    let a = "Lockdown.Service"@;
    assert(a =~= seq![
        'L', 'o', 'c', 'k', 'd', 'o', 'w', 'n', '.', 'S', 'e', 'r', 'v', 'i', 'c', 'e',
    ]);
}

proof fn lemma_plain_executable_name()
    ensures
        is_plain_name("lockdown-service.exe"@),
{
    reveal_strlit("lockdown-service.exe");
    let a = "lockdown-service.exe"@;
    assert(a =~= seq![
        'l', 'o', 'c', 'k', 'd', 'o', 'w', 'n', '-', 's', 'e', 'r', 'v', 'i', 'c', 'e', '.', 'e',
        'x', 'e',
    ]);
}

proof fn lemma_plain_data_name()
    ensures
        is_plain_name("locked_files.txt"@),
{
    reveal_strlit("locked_files.txt");
    let a = "locked_files.txt"@;
    assert(a =~= seq![
        'l', 'o', 'c', 'k', 'e', 'd', '_', 'f', 'i', 'l', 'e', 's', '.', 't', 'x', 't',
    ]);
}

proof fn lemma_names_plain()
    ensures
        is_plain_name("Lockdown.Service"@),
        is_plain_name("lockdown-service.exe"@),
        is_plain_name("locked_files.txt"@),
{
    lemma_plain_folder_name();
    lemma_plain_executable_name();
    lemma_plain_data_name();
}

/// The folder that holds the service and its data, given the ProgramData
/// folder.
pub fn get_program_folder(program_data: &str) -> (r: String)
    ensures
        r@ == program_folder(program_data@),
{
    proof {
        lemma_names_plain();
    }
    join_path(program_data, "Lockdown.Service")
}

/// Where the service executable is installed, given the ProgramData folder.
pub fn get_service_executable_path(program_data: &str) -> (r: String)
    ensures
        r@ == service_executable(program_data@),
{
    let folder = get_program_folder(program_data);
    proof {
        lemma_names_plain();
    }
    join_path(folder.as_str(), "lockdown-service.exe")
}

/// Where the list of locked files is kept, given the ProgramData folder.
pub fn get_data_file_path(program_data: &str) -> (r: String)
    ensures
        r@ == data_file(program_data@),
{
    let folder = get_program_folder(program_data);
    proof {
        lemma_names_plain();
    }
    join_path(folder.as_str(), "locked_files.txt")
}

/// Where the panel finds the service executable that it installs.
pub fn get_bundled_service_path() -> (r: String)
    ensures
        r@ == bundled_service_executable(),
{
    proof {
        lemma_names_plain();
    }
    join_path("Assets", "lockdown-service.exe")
}

/// Whether something exists at `path` on disk: `Path::exists`.
/// What it returns depends on the disk, so nothing is stated of it.
#[verifier::external_body]
fn path_exists(path: &str) -> bool {
    std::path::Path::new(path).exists()
}

/// Whether the service executable is installed where the service is
/// registered from, given the ProgramData folder. The answer comes from the
/// disk, at the path that `get_service_executable_path` gives.
pub fn check_service_location(program_data: &str) -> bool {
    let path = get_service_executable_path(program_data);
    path_exists(path.as_str())
}

} // verus!
