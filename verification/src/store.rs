use vstd::prelude::*;

use crate::errors::VaultError;
use crate::text::{
    chars_of, ends_with_lit, extend_chars, has_prefix, has_suffix, push_str_chars, split_chars,
    split_seq, string_from_chars, views_of,
};

verus! {

/// A logical secret name may only hold ASCII letters, digits, spaces,
/// underscores and dashes; in particular no path separators and no dots,
/// so a resolved name can never escape the vault root.
pub open spec fn is_name_char(c: char) -> bool {
    ||| 'a' <= c <= 'z'
    ||| 'A' <= c <= 'Z'
    ||| '0' <= c <= '9'
    ||| c == ' '
    ||| c == '_'
    ||| c == '-'
}

pub open spec fn valid_name(s: Seq<char>) -> bool {
    &&& s.len() > 0
    &&& forall|i: int| 0 <= i < s.len() ==> is_name_char(#[trigger] s[i])
}

/// The fixed extension of every encrypted secret file.
pub open spec fn enc_suffix() -> Seq<char> {
    seq!['.', 'g', 'p', 'g']
}

/// Where the secret with the given logical name is stored: the vault root,
/// a separator, the name, and the encrypted-file extension.
pub open spec fn resolved_path(root: Seq<char>, name: Seq<char>) -> Seq<char> {
    root + seq!['/'] + name + enc_suffix()
}

/// Charset check for a logical secret name: non-empty, and every character
/// drawn from the permitted set.
pub fn is_valid_name(name: &str) -> (r: bool)
    ensures
        r == valid_name(name@),
{
    let len = name.unicode_len();
    if len == 0 {
        return false;
    }
    let mut i: usize = 0;
    while i < len
        invariant
            0 < len == name@.len(),
            i <= len,
            forall|j: int| 0 <= j < i ==> is_name_char(#[trigger] name@[j]),
        decreases len - i,
    {
        let c = name.get_char(i);
        let ok = ('a' <= c && c <= 'z') || ('A' <= c && c <= 'Z') || ('0' <= c && c <= '9')
            || c == ' ' || c == '_' || c == '-';
        if !ok {
            return false;
        }
        i = i + 1;
    }
    true
}

/// Maps a logical name to the file path under the vault root, performing no
/// existence check. Names that fail the charset check are rejected before any
/// path is formed, since they may come from free-text prompts.
pub fn resolve(root: &String, name: &String) -> (r: Result<String, VaultError>)
    ensures
        match r {
            Ok(p) => valid_name(name@) && p@ == resolved_path(root@, name@),
            Err(e) => !valid_name(name@) && e == VaultError::InvalidName,
        },
{
    if !is_valid_name(name.as_str()) {
        return Err(VaultError::InvalidName);
    }
    let mut path = chars_of(root.as_str());
    path.push('/');
    let name_chars = chars_of(name.as_str());
    extend_chars(&mut path, &name_chars);
    push_str_chars(&mut path, ".gpg");
    proof {
        reveal_strlit(".gpg");
        assert(".gpg"@ =~= enc_suffix());
        assert(path@ =~= resolved_path(root@, name@));
    }
    Ok(string_from_chars(&path))
}

/// A path segment that cannot step outside the vault root: non-empty, free
/// of separators, and not a dot or dot-dot segment.
pub open spec fn safe_segment(s: Seq<char>) -> bool {
    &&& s.len() > 0
    &&& !contains_char(s, '/')
    &&& !contains_char(s, '\\')
    &&& s != seq!['.']
    &&& s != seq!['.', '.']
}

pub fn is_safe_segment(v: &Vec<char>) -> (r: bool)
    ensures
        r == safe_segment(v@),
{
    if v.len() == 0 {
        return false;
    }
    if v.len() == 1 && v[0] == '.' {
        proof {
            assert(v@ =~= seq!['.']);
        }
        return false;
    }
    if v.len() == 2 && v[0] == '.' && v[1] == '.' {
        proof {
            assert(v@ =~= seq!['.', '.']);
        }
        return false;
    }
    let mut i: usize = 0;
    while i < v.len()
        invariant
            i <= v@.len(),
            forall|j: int| 0 <= j < i ==> v@[j] != '/' && v@[j] != '\\',
        decreases v@.len() - i,
    {
        if v[i] == '/' || v[i] == '\\' {
            return false;
        }
        i = i + 1;
    }
    proof {
        if v@ == seq!['.'] {
            assert(v@.len() == 1);
        }
        if v@ == seq!['.', '.'] {
            assert(v@[0] == '.' && v@[1] == '.');
        }
    }
    true
}

/// A stored record's name: one or more separator-joined segments, each of
/// which is safe, so namespaced system-generated names resolve while no
/// name can step outside the vault root (no empty, dot or dot-dot segment,
/// and no backslash anywhere).
pub open spec fn valid_stored_name(s: Seq<char>) -> bool {
    forall|i: int|
        0 <= i < split_seq(s, '/').len() ==> safe_segment(#[trigger] split_seq(s, '/')[i])
}

pub fn is_valid_stored_name(name: &str) -> (r: bool)
    ensures
        r == valid_stored_name(name@),
{
    let chars = chars_of(name);
    let parts = split_chars(&chars, '/');
    let mut i: usize = 0;
    while i < parts.len()
        invariant
            i <= parts@.len(),
            views_of(parts@) == split_seq(name@, '/'),
            forall|j: int| 0 <= j < i ==> safe_segment(#[trigger] split_seq(name@, '/')[j]),
        decreases parts@.len() - i,
    {
        proof {
            assert(split_seq(name@, '/')[i as int] == parts@[i as int]@);
        }
        if !is_safe_segment(&parts[i]) {
            return false;
        }
        i = i + 1;
    }
    true
}

/// Maps a stored record's possibly namespaced name to its file path under
/// the vault root: the same join as `resolve`, but a name may hold several
/// safe segments, as the system-generated one-time-password names do.
pub fn resolve_stored(root: &String, name: &String) -> (r: Result<String, VaultError>)
    ensures
        match r {
            Ok(p) => valid_stored_name(name@) && p@ == resolved_path(root@, name@),
            Err(e) => !valid_stored_name(name@) && e == VaultError::InvalidName,
        },
{
    if !is_valid_stored_name(name.as_str()) {
        return Err(VaultError::InvalidName);
    }
    let mut path = chars_of(root.as_str());
    path.push('/');
    let name_chars = chars_of(name.as_str());
    extend_chars(&mut path, &name_chars);
    push_str_chars(&mut path, ".gpg");
    proof {
        reveal_strlit(".gpg");
        assert(".gpg"@ =~= enc_suffix());
        assert(path@ =~= resolved_path(root@, name@));
    }
    Ok(string_from_chars(&path))
}

/// Every name that passes the single-segment charset check also stands as a
/// stored name: its one segment has no separators and is no dot segment.
pub proof fn lemma_valid_name_is_stored_name(name: Seq<char>)
    requires
        valid_name(name),
    ensures
        valid_stored_name(name),
{
    assert(forall|j: int| 0 <= j < name.len() ==> #[trigger] name[j] != '/' && name[j] != '\\');
    crate::text::lemma_split_seq_first(name, '/', name.len() as int);
    assert(split_seq(name, '/') =~= seq![name]);
    assert(!contains_char(name, '/'));
    assert(!contains_char(name, '\\'));
    if name == seq!['.'] {
        assert(!is_name_char(name[0]));
    }
    if name == seq!['.', '.'] {
        assert(!is_name_char(name[0]));
    }
    assert(safe_segment(name));
}

pub open spec fn is_sep(c: char) -> bool {
    c == '/' || c == '\\'
}

/// Drops every leading path separator.
pub open spec fn drop_seps(s: Seq<char>) -> Seq<char>
    decreases s.len(),
{
    if s.len() > 0 && is_sep(s[0]) {
        drop_seps(s.drop_first())
    } else {
        s
    }
}

proof fn lemma_drop_seps_at(s: Seq<char>, k: int)
    requires
        0 <= k <= s.len(),
        forall|j: int| 0 <= j < k ==> is_sep(#[trigger] s[j]),
        k < s.len() ==> !is_sep(s[k]),
    ensures
        drop_seps(s) =~= s.subrange(k, s.len() as int),
    decreases k,
{
    if k == 0 {
        assert(s.subrange(0, s.len() as int) =~= s);
    } else {
        let t = s.drop_first();
        lemma_drop_seps_at(t, k - 1);
        assert(t.subrange(k - 1, t.len() as int) =~= s.subrange(k, s.len() as int));
    }
}

/// Platform path separators normalized to the single logical separator.
pub open spec fn normalize_seps(s: Seq<char>) -> Seq<char> {
    s.map_values(
        |c: char|
            if c == '\\' {
                '/'
            } else {
                c
            },
    )
}

/// The logical name a walked file path stands for, if any: the vault-root
/// prefix is removed, then any leading separators, and the result counts only
/// if it still carries the encrypted-file extension, which is stripped; the
/// separators that remain inside the name are normalized.
pub open spec fn stripped_name(root: Seq<char>, path: Seq<char>) -> Option<Seq<char>> {
    let rest = if has_prefix(path, root) {
        path.subrange(root.len() as int, path.len() as int)
    } else {
        path
    };
    let bare = drop_seps(rest);
    if has_suffix(bare, enc_suffix()) {
        Some(normalize_seps(bare.subrange(0, bare.len() - 4)))
    } else {
        None
    }
}

fn vec_has_prefix(v: &Vec<char>, p: &Vec<char>) -> (r: bool)
    ensures
        r == has_prefix(v@, p@),
{
    if p.len() > v.len() {
        return false;
    }
    let mut i: usize = 0;
    while i < p.len()
        invariant
            i <= p@.len() <= v@.len(),
            forall|j: int| 0 <= j < i ==> v@[j] == p@[j],
        decreases p@.len() - i,
    {
        if v[i] != p[i] {
            assert(v@.subrange(0, p@.len() as int)[i as int] != p@[i as int]);
            return false;
        }
        i = i + 1;
    }
    assert(v@.subrange(0, p@.len() as int) =~= p@);
    true
}

/// The logical name of one walked path, or nothing if the path does not carry
/// the encrypted-file extension once the root prefix and separators are gone.
fn name_from_entry(root: &Vec<char>, path: &Vec<char>) -> (r: Option<Vec<char>>)
    ensures
        match r {
            Some(n) => stripped_name(root@, path@) == Some(n@),
            None => stripped_name(root@, path@) is None,
        },
{
    let mut start: usize = if vec_has_prefix(path, root) {
        root.len()
    } else {
        0
    };
    let ghost rest = if has_prefix(path@, root@) {
        path@.subrange(root@.len() as int, path@.len() as int)
    } else {
        path@
    };
    let ghost base = start as int;
    assert(rest =~= path@.subrange(base, path@.len() as int));
    while start < path.len() && (path[start] == '/' || path[start] == '\\')
        invariant
            base <= start <= path@.len(),
            rest =~= path@.subrange(base, path@.len() as int),
            forall|j: int| base <= j < start ==> is_sep(#[trigger] path@[j]),
        decreases path@.len() - start,
    {
        start = start + 1;
    }
    proof {
        lemma_drop_seps_at(rest, start - base);
        assert(drop_seps(rest) =~= path@.subrange(start as int, path@.len() as int));
    }
    let mut bare: Vec<char> = Vec::new();
    let mut i: usize = start;
    while i < path.len()
        invariant
            start <= i <= path@.len(),
            bare@ == path@.subrange(start as int, i as int),
        decreases path@.len() - i,
    {
        bare.push(path[i]);
        assert(bare@ =~= path@.subrange(start as int, i + 1));
        i = i + 1;
    }
    proof {
        reveal_strlit(".gpg");
        assert(".gpg"@ =~= enc_suffix());
    }
    if !ends_with_lit(&bare, ".gpg") {
        return None;
    }
    let keep = bare.len() - 4;
    let mut name: Vec<char> = Vec::new();
    let mut j: usize = 0;
    proof {
        assert(name@ =~= normalize_seps(bare@.subrange(0, 0)));
    }
    while j < keep
        invariant
            j <= keep <= bare@.len(),
            name@ == normalize_seps(bare@.subrange(0, j as int)),
        decreases keep - j,
    {
        let c = bare[j];
        if c == '\\' {
            name.push('/');
        } else {
            name.push(c);
        }
        assert(name@ =~= normalize_seps(bare@.subrange(0, j + 1)));
        j = j + 1;
    }
    assert(name@ =~= normalize_seps(bare@.subrange(0, bare@.len() - 4)));
    Some(name)
}

/// The view of each (path, is-regular-file) pair.
pub open spec fn entry_views(es: Seq<(String, bool)>) -> Seq<(Seq<char>, bool)> {
    es.map_values(|e: (String, bool)| (e.0@, e.1))
}

pub open spec fn string_views(ss: Seq<String>) -> Seq<Seq<char>> {
    ss.map_values(|s: String| s@)
}

/// The names listed for a walk result: one name per regular file whose path
/// strips to a logical name, in traversal order.
pub open spec fn names_model(root: Seq<char>, entries: Seq<(Seq<char>, bool)>) -> Seq<Seq<char>>
    decreases entries.len(),
{
    if entries.len() == 0 {
        Seq::empty()
    } else {
        let e = entries[0];
        let rest = names_model(root, entries.drop_first());
        if e.1 {
            match stripped_name(root, e.0) {
                Some(n) => seq![n] + rest,
                None => rest,
            }
        } else {
            rest
        }
    }
}

/// Turns walked entries into logical names: regular files carrying the
/// encrypted-file extension, with the root prefix and the extension stripped,
/// in the order the walk handed them out.
pub fn names_from_entries(root: &String, entries: &Vec<(String, bool)>) -> (r: Vec<String>)
    ensures
        string_views(r@) == names_model(root@, entry_views(entries@)),
{
    let root_chars = chars_of(root.as_str());
    let mut out: Vec<String> = Vec::new();
    let mut i: usize = 0;
    proof {
        assert(entry_views(entries@).subrange(0, entries@.len() as int) =~= entry_views(
            entries@,
        ));
        assert(entry_views(entries@).subrange(entries@.len() as int, entries@.len() as int)
            =~= Seq::<(Seq<char>, bool)>::empty());
    }
    while i < entries.len()
        invariant
            i <= entries@.len(),
            root_chars@ == root@,
            names_model(root@, entry_views(entries@)) =~= string_views(out@) + names_model(
                root@,
                entry_views(entries@).subrange(i as int, entries@.len() as int),
            ),
        decreases entries@.len() - i,
    {
        let ghost remaining = entry_views(entries@).subrange(i as int, entries@.len() as int);
        proof {
            assert(remaining[0] == (entries@[i as int].0@, entries@[i as int].1));
            assert(remaining.drop_first() =~= entry_views(entries@).subrange(
                i + 1,
                entries@.len() as int,
            ));
        }
        let is_file = entries[i].1;
        if is_file {
            let path_chars = chars_of(entries[i].0.as_str());
            match name_from_entry(&root_chars, &path_chars) {
                Some(n) => {
                    out.push(string_from_chars(&n));
                    proof {
                        assert(string_views(out@) =~= string_views(out@.drop_last()) + seq![
                            n@,
                        ]);
                    }
                },
                None => {},
            }
        }
        i = i + 1;
    }
    proof {
        assert(entry_views(entries@).subrange(entries@.len() as int, entries@.len() as int)
            =~= Seq::<(Seq<char>, bool)>::empty());
        assert(string_views(out@) =~= names_model(root@, entry_views(entries@)));
    }
    out
}

/// Relies on walkdir::WalkDir: walks the tree under `dir` without following
/// symbolic links, handing back each readable entry's path and whether it is
/// a regular file. What comes back depends on the filesystem, so nothing is
/// claimed of the entries.
#[verifier::external_body]
fn walk_entries(dir: &String) -> (r: Vec<(String, bool)>)
{
    walkdir::WalkDir::new(dir)
        .follow_links(false)
        .into_iter()
        .filter_map(|e| e.ok())
        .map(|e| {
            let is_file = e.file_type().is_file();
            (e.path().to_string_lossy().into_owned(), is_file)
        })
        .collect()
}

/// Walks the vault root from scratch and lists every stored logical name, in
/// filesystem-traversal order. Whatever the walk found, the result is exactly
/// the names model applied to it.
pub fn list_passwords(vault_dir: &String) -> (r: Vec<String>)
    ensures
        exists|es: Seq<(Seq<char>, bool)>| string_views(r@) == names_model(vault_dir@, es),
{
    let entries = walk_entries(vault_dir);
    let r = names_from_entries(vault_dir, &entries);
    proof {
        assert(string_views(r@) == names_model(vault_dir@, entry_views(entries@)));
    }
    r
}

/// Round trip of storing and listing: a valid logical name resolved to its
/// path under the vault root is recovered exactly when that path is stripped
/// back to a name.
pub proof fn lemma_resolve_list_round_trip(root: Seq<char>, name: Seq<char>)
    requires
        valid_name(name),
    ensures
        stripped_name(root, resolved_path(root, name)) == Some(name),
{
    let path = resolved_path(root, name);
    assert(path.subrange(0, root.len() as int) =~= root);
    let rest = path.subrange(root.len() as int, path.len() as int);
    assert(rest =~= seq!['/'] + name + enc_suffix());
    assert(is_sep(rest[0]));
    let tail = rest.drop_first();
    assert(tail =~= name + enc_suffix());
    assert(is_name_char(name[0]));
    assert(!is_sep(tail[0]));
    assert(drop_seps(rest) == drop_seps(tail));
    assert(drop_seps(tail) == tail);
    assert(tail.subrange(tail.len() - 4, tail.len() as int) =~= enc_suffix());
    assert(tail.subrange(0, tail.len() - 4) =~= name);
    assert(normalize_seps(name) =~= name);
}

/// Storing then listing: once the file a valid name resolves to stands among
/// the walked entries as a regular file, the listing carries that name.
pub proof fn lemma_list_contains_stored_name(
    root: Seq<char>,
    name: Seq<char>,
    entries: Seq<(Seq<char>, bool)>,
    k: int,
)
    requires
        valid_name(name),
        0 <= k < entries.len(),
        entries[k] == (resolved_path(root, name), true),
    ensures
        names_model(root, entries).contains(name),
    decreases entries.len(),
{
    if k == 0 {
        lemma_resolve_list_round_trip(root, name);
        assert(names_model(root, entries)[0] == name);
    } else {
        lemma_list_contains_stored_name(root, name, entries.drop_first(), k - 1);
        let rest = names_model(root, entries.drop_first());
        let j = choose|j: int| 0 <= j < rest.len() && rest[j] == name;
        let e = entries[0];
        if e.1 && stripped_name(root, e.0) is Some {
            assert(names_model(root, entries)[j + 1] == name);
        } else {
            assert(names_model(root, entries)[j] == name);
        }
    }
}

/// How often a name occurs in a listing.
pub open spec fn occurrences(s: Seq<Seq<char>>, x: Seq<char>) -> int
    decreases s.len(),
{
    if s.len() == 0 {
        0
    } else {
        (if s[0] == x {
            1int
        } else {
            0int
        }) + occurrences(s.drop_first(), x)
    }
}

/// How many walked entries are regular files stripping to the given name.
pub open spec fn entries_yielding(
    root: Seq<char>,
    entries: Seq<(Seq<char>, bool)>,
    name: Seq<char>,
) -> int
    decreases entries.len(),
{
    if entries.len() == 0 {
        0
    } else {
        let e = entries[0];
        (if e.1 && stripped_name(root, e.0) == Some(name) {
            1int
        } else {
            0int
        }) + entries_yielding(root, entries.drop_first(), name)
    }
}

/// The listing carries a name exactly as often as the walk reported a
/// regular file stripping to it. The filesystem namespace keeps one file
/// per logical name, so a stored name is listed exactly once.
pub proof fn lemma_list_name_occurrences(
    root: Seq<char>,
    entries: Seq<(Seq<char>, bool)>,
    name: Seq<char>,
)
    ensures
        occurrences(names_model(root, entries), name) == entries_yielding(root, entries, name),
    decreases entries.len(),
{
    if entries.len() > 0 {
        lemma_list_name_occurrences(root, entries.drop_first(), name);
        let e = entries[0];
        let rest = names_model(root, entries.drop_first());
        if e.1 {
            match stripped_name(root, e.0) {
                Some(n) => {
                    assert((seq![n] + rest)[0] == n);
                    assert((seq![n] + rest).drop_first() =~= rest);
                },
                None => {},
            }
        }
    }
}

pub open spec fn contains_char(s: Seq<char>, c: char) -> bool {
    exists|i: int| 0 <= i < s.len() && s[i] == c
}

pub open spec fn contains_dotdot(s: Seq<char>) -> bool {
    exists|i: int| 0 <= i && i + 1 < s.len() && #[trigger] s[i] == '.' && s[i + 1] == '.'
}

/// A name that holds a path separator or a traversal sequence never passes
/// the charset check, so `resolve` rejects it with `InvalidName` and no path
/// outside the vault root is ever formed.
pub proof fn lemma_traversal_rejected(name: Seq<char>)
    requires
        contains_char(name, '/') || contains_dotdot(name),
    ensures
        !valid_name(name),
{
    if contains_char(name, '/') {
        let i = choose|i: int| 0 <= i < name.len() && name[i] == '/';
        assert(!is_name_char(name[i]));
    } else {
        let i = choose|i: int| 0 <= i && i + 1 < name.len() && #[trigger] name[i] == '.' && name[i
            + 1] == '.';
        assert(!is_name_char(name[i]));
    }
}

} // verus!
