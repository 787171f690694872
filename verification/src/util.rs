//! Content hashes, slugs and Typst literal rendering.
use sha2::Digest;
use vstd::prelude::*;
use vstd::utf8::encode_utf8;

use crate::script::string_views;
use crate::text::{
    chars_of, is_ascii_alnum, push_char, push_chars, string_of, strip_char, strip_char_vec,
    to_ascii_lowercase, views, ascii_lower,
};
use crate::unicode::{alphanumeric, is_alphanumeric};

verus! {

broadcast use vstd::string::group_string_axioms;

// ---------------------------------------------------------------------------
// Slugs
// ---------------------------------------------------------------------------

/// One character fed to the slug builder; the state is the slug so far and
/// whether it ends in a separator that this builder added.
pub open spec fn slug_step(st: (Seq<char>, bool), c: char) -> (Seq<char>, bool) {
    if is_ascii_alnum(c) {
        (st.0.push(ascii_lower(c)), false)
    } else if (c as u32) >= 128 && alphanumeric(c) {
        (st.0.push(c), false)
    } else if !st.1 {
        (st.0.push('-'), true)
    } else {
        st
    }
}

pub open spec fn slug_fold(s: Seq<char>) -> (Seq<char>, bool)
    decreases s.len(),
{
    if s.len() == 0 {
        (Seq::<char>::empty(), false)
    } else {
        slug_step(slug_fold(s.drop_last()), s.last())
    }
}

/// The slug of `s`: ASCII letters lowercased, non-ASCII alphanumerics kept, each
/// run of other characters turned into one `-`, dashes trimmed at both ends;
/// `section` when nothing is left.
pub open spec fn slug_of(s: Seq<char>) -> Seq<char> {
    let t = strip_char(slug_fold(s).0, '-');
    if t.len() == 0 {
        seq!['s', 'e', 'c', 't', 'i', 'o', 'n']
    } else {
        t
    }
}

/// Turns a title or path segment into a URL slug.
pub fn slugify(input: &str) -> (r: String)
    ensures
        r@ == slug_of(input@),
{
    let cs = chars_of(input);
    let mut out: Vec<char> = Vec::new();
    let mut last_dash = false;
    let mut i: usize = 0;
    while i < cs.len()
        invariant
            i <= cs.len(),
            cs@ == input@,
            slug_fold(cs@.take(i as int)) == (out@, last_dash),
        decreases cs.len() - i,
    {
        let ch = cs[i];
        assert(cs@.take(i + 1).drop_last() =~= cs@.take(i as int));
        if ('0' <= ch && ch <= '9') || ('A' <= ch && ch <= 'Z') || ('a' <= ch && ch <= 'z') {
            out.push(to_ascii_lowercase(ch));
            last_dash = false;
        } else if is_alphanumeric(ch) {
            out.push(ch);
            last_dash = false;
        } else if !last_dash {
            out.push('-');
            last_dash = true;
        }
        i += 1;
    }
    assert(cs@.take(cs.len() as int) =~= cs@);
    let trimmed = strip_char_vec(&out, '-');
    if trimmed.len() == 0 {
        let r = String::from_str("section");
        proof {
            reveal_strlit("section");
        }
        assert(r@ =~= seq!['s', 'e', 'c', 't', 'i', 'o', 'n']);
        r
    } else {
        string_of(&trimmed)
    }
}

// ---------------------------------------------------------------------------
// Typst literals
// ---------------------------------------------------------------------------

/// The Typst string-literal escape of one character.
pub open spec fn typst_escape_char(c: char) -> Seq<char> {
    if c == '\\' {
        seq!['\\', '\\']
    } else if c == '"' {
        seq!['\\', '"']
    } else if c == '\n' {
        seq!['\\', 'n']
    } else if c == '\r' {
        seq!['\\', 'r']
    } else if c == '\t' {
        seq!['\\', 't']
    } else {
        seq![c]
    }
}

/// `s` with each character escaped for a Typst string literal.
pub open spec fn typst_escape(s: Seq<char>) -> Seq<char>
    decreases s.len(),
{
    if s.len() == 0 {
        Seq::<char>::empty()
    } else {
        typst_escape(s.drop_last()) + typst_escape_char(s.last())
    }
}

/// The character a Typst string escape `\c` stands for, as text: `\`,
/// `"`, a newline, a carriage return or a tab; any other escape is read as
/// the two characters themselves.
pub open spec fn unescape_pair(c: char) -> Seq<char> {
    if c == '\\' {
        seq!['\\']
    } else if c == '"' {
        seq!['"']
    } else if c == 'n' {
        seq!['\n']
    } else if c == 'r' {
        seq!['\r']
    } else if c == 't' {
        seq!['\t']
    } else {
        seq!['\\', c]
    }
}

/// The text that the body of a Typst string literal denotes, read from the
/// front: each backslash escape stands for its character.
pub open spec fn typst_unescape(t: Seq<char>) -> Seq<char>
    decreases t.len(),
{
    if t.len() == 0 {
        Seq::<char>::empty()
    } else if t[0] == '\\' && t.len() >= 2 {
        unescape_pair(t[1]) + typst_unescape(t.skip(2))
    } else {
        seq![t[0]] + typst_unescape(t.drop_first())
    }
}

/// Escaping a text character by character, from the front.
proof fn lemma_typst_escape_front(s: Seq<char>)
    requires
        s.len() > 0,
    ensures
        typst_escape(s) == typst_escape_char(s[0]) + typst_escape(s.drop_first()),
    decreases s.len(),
{
    if s.len() == 1 {
        assert(s.drop_first() =~= Seq::<char>::empty());
        assert(s.drop_last() =~= Seq::<char>::empty());
        assert(typst_escape(s.drop_last()) == Seq::<char>::empty());
        assert(s.last() == s[0]);
        assert(typst_escape(s) =~= Seq::<char>::empty() + typst_escape_char(s[0]));
        assert(typst_escape(s.drop_first()) == Seq::<char>::empty());
    } else {
        lemma_typst_escape_front(s.drop_last());
        assert(s.drop_last().drop_first() =~= s.drop_first().drop_last());
        assert(s.drop_first().last() == s.last());
        assert(s.drop_last()[0] == s[0]);
    }
}

/// Reading back an escaped text gives the text.
pub proof fn lemma_typst_unescape_escape(s: Seq<char>)
    ensures
        typst_unescape(typst_escape(s)) == s,
    decreases s.len(),
{
    if s.len() > 0 {
        lemma_typst_escape_front(s);
        lemma_typst_unescape_escape(s.drop_first());
        let c = s[0];
        let e = typst_escape_char(c);
        let rest = typst_escape(s.drop_first());
        let t = e + rest;
        if e.len() == 2 {
            assert(t[0] == '\\');
            assert(t.skip(2) =~= rest);
            assert(unescape_pair(t[1]) == seq![c]);
        } else {
            assert(t[0] == c);
            assert(t.drop_first() =~= rest);
        }
        assert(seq![c] + s.drop_first() =~= s);
    }
}

/// The Typst string literal that denotes `s`.
pub open spec fn typst_string_of(s: Seq<char>) -> Seq<char> {
    seq!['"'] + typst_escape(s) + seq!['"']
}

/// Appends the escaped characters of `v` to `out`.
fn push_typst_escaped(out: &mut String, v: &Vec<char>)
    ensures
        final(out)@ == old(out)@ + typst_escape(v@),
{
    let ghost o = out@;
    let mut i: usize = 0;
    while i < v.len()
        invariant
            i <= v.len(),
            out@ == o + typst_escape(v@.take(i as int)),
        decreases v.len() - i,
    {
        let c = v[i];
        assert(v@.take(i + 1).drop_last() =~= v@.take(i as int));
        let ghost before = out@;
        if c == '\\' {
            push_char(out, '\\');
            push_char(out, '\\');
        } else if c == '"' {
            push_char(out, '\\');
            push_char(out, '"');
        } else if c == '\n' {
            push_char(out, '\\');
            push_char(out, 'n');
        } else if c == '\r' {
            push_char(out, '\\');
            push_char(out, 'r');
        } else if c == '\t' {
            push_char(out, '\\');
            push_char(out, 't');
        } else {
            push_char(out, c);
        }
        assert(out@ =~= before + typst_escape_char(c));
        i += 1;
        assert(o + typst_escape(v@.take(i as int)) =~= before + typst_escape_char(c));
    }
    assert(v@.take(v.len() as int) =~= v@);
}

/// Renders `s` as a Typst string literal.
pub fn typst_string(s: &str) -> (r: String)
    ensures
        r@ == typst_string_of(s@),
{
    let cs = chars_of(s);
    let mut out = String::new();
    push_char(&mut out, '"');
    push_typst_escaped(&mut out, &cs);
    push_char(&mut out, '"');
    assert(out@ =~= typst_string_of(s@));
    out
}

/// The Typst literal for an optional string: the string literal, or `none`.
pub open spec fn typst_opt_string_of(s: Option<Seq<char>>) -> Seq<char> {
    match s {
        Some(t) => typst_string_of(t),
        None => seq!['n', 'o', 'n', 'e'],
    }
}

/// Renders an optional string as a Typst literal.
pub fn typst_opt_string(s: &Option<String>) -> (r: String)
    ensures
        r@ == typst_opt_string_of(
            match s {
                Some(t) => Some(t@),
                None => None,
            },
        ),
{
    match s {
        Some(t) => typst_string(t.as_str()),
        None => {
            let r = String::from_str("none");
            proof {
                reveal_strlit("none");
            }
            assert(r@ =~= seq!['n', 'o', 'n', 'e']);
            r
        },
    }
}

/// The pieces of `parts` with `sep` between each two neighbours.
pub open spec fn join(parts: Seq<Seq<char>>, sep: Seq<char>) -> Seq<char>
    decreases parts.len(),
{
    if parts.len() == 0 {
        Seq::<char>::empty()
    } else if parts.len() == 1 {
        parts[0]
    } else {
        join(parts.drop_last(), sep) + sep + parts.last()
    }
}

/// Joins the character vectors of `parts` with `sep`.
pub fn join_vecs(parts: &Vec<Vec<char>>, sep: &Vec<char>) -> (r: Vec<char>)
    ensures
        r@ == join(views(parts@), sep@),
{
    let mut out: Vec<char> = Vec::new();
    let mut i: usize = 0;
    while i < parts.len()
        invariant
            i <= parts.len(),
            out@ == join(views(parts@).take(i as int), sep@),
        decreases parts.len() - i,
    {
        let ghost before = out@;
        let ghost pv = views(parts@);
        if i > 0 {
            let mut k: usize = 0;
            while k < sep.len()
                invariant
                    k <= sep.len(),
                    out@ == before + sep@.take(k as int),
                decreases sep.len() - k,
            {
                out.push(sep[k]);
                k += 1;
                assert(out@ =~= before + sep@.take(k as int));
            }
        }
        let ghost mid = out@;
        let p = &parts[i];
        let mut k: usize = 0;
        while k < p.len()
            invariant
                k <= p.len(),
                out@ == mid + p@.take(k as int),
            decreases p.len() - k,
        {
            out.push(p[k]);
            k += 1;
            assert(out@ =~= mid + p@.take(k as int));
        }
        proof {
            assert(p@.take(p.len() as int) =~= p@);
            assert(sep@.take(sep.len() as int) =~= sep@);
            assert(pv.take(i + 1).drop_last() =~= pv.take(i as int));
            assert(pv.take(i + 1).last() == p@);
            if i == 0 {
                assert(mid =~= Seq::<char>::empty());
                assert(out@ =~= p@);
            }
        }
        i += 1;
    }
    assert(views(parts@).take(parts.len() as int) =~= views(parts@));
    out
}

/// A Typst array literal of already-rendered items: `()`, `(a,)` or `(a, b)`.
pub open spec fn typst_tuple_of(items: Seq<Seq<char>>) -> Seq<char> {
    if items.len() == 0 {
        seq!['(', ')']
    } else if items.len() == 1 {
        seq!['('] + items[0] + seq![',', ')']
    } else {
        seq!['('] + join(items, seq![',', ' ']) + seq![')']
    }
}

/// Renders already-rendered items as a Typst array literal.
pub fn typst_tuple(items: Vec<String>) -> (r: String)
    ensures
        r@ == typst_tuple_of(string_views(items@)),
{
    let mut parts: Vec<Vec<char>> = Vec::new();
    let mut i: usize = 0;
    while i < items.len()
        invariant
            i <= items.len(),
            views(parts@) == string_views(items@).take(i as int),
        decreases items.len() - i,
    {
        let ghost before = views(parts@);
        let v = chars_of(items[i].as_str());
        assert(v@ == items@[i as int]@);
        parts.push(v);
        i += 1;
        assert(views(parts@) =~= before.push(items@[i - 1]@));
        assert(views(parts@) =~= string_views(items@).take(i as int));
    }
    assert(string_views(items@).take(items.len() as int) =~= string_views(items@));
    let mut out = String::new();
    push_char(&mut out, '(');
    if parts.len() == 0 {
        push_char(&mut out, ')');
        assert(out@ =~= seq!['(', ')']);
    } else if parts.len() == 1 {
        push_chars(&mut out, &parts[0]);
        push_char(&mut out, ',');
        push_char(&mut out, ')');
        assert(out@ =~= seq!['('] + string_views(items@)[0] + seq![',', ')']);
    } else {
        let mut sep: Vec<char> = Vec::new();
        sep.push(',');
        sep.push(' ');
        let joined = join_vecs(&parts, &sep);
        assert(sep@ =~= seq![',', ' ']);
        push_chars(&mut out, &joined);
        push_char(&mut out, ')');
        assert(out@ =~= seq!['('] + join(string_views(items@), seq![',', ' ']) + seq![')']);
    }
    out
}

/// Renders strings as a Typst array of string literals.
pub fn typst_array_str(values: &Vec<String>) -> (r: String)
    ensures
        r@ == typst_tuple_of(string_views(values@).map_values(|v: Seq<char>| typst_string_of(v))),
{
    let mut items: Vec<String> = Vec::new();
    let mut i: usize = 0;
    while i < values.len()
        invariant
            i <= values.len(),
            string_views(items@) == string_views(values@).take(i as int).map_values(
                |v: Seq<char>| typst_string_of(v),
            ),
        decreases values.len() - i,
    {
        let ghost before = string_views(items@);
        let t = typst_string(values[i].as_str());
        items.push(t);
        i += 1;
        assert(string_views(items@) =~= before.push(t@));
        assert(string_views(items@) =~= string_views(values@).take(i as int).map_values(
            |v: Seq<char>| typst_string_of(v),
        ));
    }
    assert(string_views(values@).take(values.len() as int) =~= string_views(values@));
    typst_tuple(items)
}

// ---------------------------------------------------------------------------
// Content hashes
// ---------------------------------------------------------------------------

/// The SHA-256 digest of a byte string.
pub uninterp spec fn sha256(data: Seq<u8>) -> Seq<u8>;

/// `Sha256::digest` of the sha2 crate. The result is the named digest
/// `sha256` of the input; SHA-256 digests are 32 bytes long.
#[verifier::external_body]
fn sha256_digest(data: &Vec<u8>) -> (r: Vec<u8>)
    ensures
        r@ == sha256(data@),
        r@.len() == 32,
{
    sha2::Sha256::digest(data.as_slice()).to_vec()
}

/// The bytes hashed for a list of strings: each string's UTF-8 bytes
/// followed by a NUL byte, so that no two lists give the same bytes.
pub open spec fn hash_input(parts: Seq<Seq<char>>) -> Seq<u8>
    decreases parts.len(),
{
    if parts.len() == 0 {
        Seq::<u8>::empty()
    } else {
        hash_input(parts.drop_last()) + encode_utf8(parts.last()) + seq![0u8]
    }
}

/// The lowercase hexadecimal text of a byte string, two digits a byte.
pub open spec fn hex_bytes(b: Seq<u8>) -> Seq<char>
    decreases b.len(),
{
    if b.len() == 0 {
        Seq::<char>::empty()
    } else {
        hex_bytes(b.drop_last()) + seq![
            crate::http::hex_digit_char((b.last() / 16) as nat),
            crate::http::hex_digit_char((b.last() % 16) as nat),
        ]
    }
}

proof fn lemma_hex_bytes_len(b: Seq<u8>)
    ensures
        hex_bytes(b).len() == 2 * b.len(),
    decreases b.len(),
{
    if b.len() > 0 {
        lemma_hex_bytes_len(b.drop_last());
    }
}

/// The content hash of a list of strings: the SHA-256 digest of their
/// framed bytes, in lowercase hexadecimal.
pub open spec fn hash_of(parts: Seq<Seq<char>>) -> Seq<char> {
    hex_bytes(sha256(hash_input(parts)))
}

/// The text of a sequence of string slices.
pub open spec fn str_views(v: Seq<&str>) -> Seq<Seq<char>> {
    v.map_values(|x: &str| x@)
}

/// The bytes hashed for a list of strings.
pub fn hash_input_bytes(parts: &[&str]) -> (r: Vec<u8>)
    ensures
        r@ == hash_input(str_views(parts@)),
{
    let mut out: Vec<u8> = Vec::new();
    let mut i: usize = 0;
    while i < parts.len()
        invariant
            i <= parts.len(),
            out@ == hash_input(str_views(parts@).take(i as int)),
        decreases parts.len() - i,
    {
        let b = parts[i].as_bytes();
        let ghost start = out@;
        let mut j: usize = 0;
        while j < b.len()
            invariant
                j <= b.len(),
                out@ == start + b@.take(j as int),
            decreases b.len() - j,
        {
            out.push(b[j]);
            j += 1;
            assert(out@ =~= start + b@.take(j as int));
        }
        out.push(0u8);
        assert(b@.take(b.len() as int) =~= b@);
        assert(str_views(parts@).take(i + 1).drop_last() =~= str_views(parts@).take(i as int));
        assert(str_views(parts@).take(i + 1).last() == parts@[i as int]@);
        assert(out@ =~= hash_input(str_views(parts@).take(i + 1)));
        i += 1;
    }
    assert(str_views(parts@).take(parts.len() as int) =~= str_views(parts@));
    out
}

/// The lowercase hexadecimal text of a digest.
pub fn hex_digest(digest: &Vec<u8>) -> (r: String)
    ensures
        r@ == hex_bytes(digest@),
{
    let mut s = String::new();
    let mut i: usize = 0;
    while i < digest.len()
        invariant
            i <= digest.len(),
            s@ == hex_bytes(digest@.take(i as int)),
        decreases digest.len() - i,
    {
        let b = digest[i];
        assert(digest@.take(i + 1).drop_last() =~= digest@.take(i as int));
        push_char(&mut s, crate::http::hex_digit((b / 16) as u64));
        push_char(&mut s, crate::http::hex_digit((b % 16) as u64));
        i += 1;
    }
    assert(digest@.take(digest.len() as int) =~= digest@);
    s
}

/// The content hash of a list of strings: 64 hexadecimal digits.
pub fn hash_strs(parts: &[&str]) -> (r: String)
    ensures
        r@ == hash_of(str_views(parts@)),
        r@.len() == 64,
{
    let input = hash_input_bytes(parts);
    let digest = sha256_digest(&input);
    proof {
        lemma_hex_bytes_len(digest@);
    }
    hex_digest(&digest)
}

// ---------------------------------------------------------------------------
// Writing outputs only when they change
// ---------------------------------------------------------------------------

/// What is found at an output path before it is written, as its own
/// metadata (not followed through links) tells.
#[derive(Debug, Clone, Copy, PartialEq, Eq)]
pub enum ExistingKind {
    /// Nothing is there.
    Missing,
    /// A symbolic link, dangling or not.
    Symlink,
    /// A regular file.
    File,
    /// A directory or another kind of entry.
    Other,
}

/// The message for a refused write of text over something that is not a
/// regular file.
pub fn write_refusal_message(path: &str) -> (r: String)
    ensures
        r@ == "refusing to overwrite non-file path "@ + path@,
{
    let mut m = String::from_str("refusing to overwrite non-file path ");
    m.append(path);
    m
}

/// The message for a refused copy of a static file over something that is
/// not a regular file.
pub fn copy_refusal_message(path: &str) -> (r: String)
    ensures
        r@ == "refusing to overwrite non-file static output "@ + path@,
{
    let mut m = String::from_str("refusing to overwrite non-file static output ");
    m.append(path);
    m
}

/// How text is written to an output path.
#[derive(Debug, Clone, Copy, PartialEq, Eq)]
pub enum WriteAction {
    /// Write the file.
    Write,
    /// Remove the link, never touching its target, then write.
    RemoveLinkThenWrite,
    /// Read the file and write only when its text differs.
    CompareThenWrite,
    /// Leave the entry alone and fail: it is not a file.
    Refuse,
}

/// How text is written over what is found at the path.
pub fn write_action(existing: ExistingKind) -> (r: WriteAction)
    ensures
        r == (match existing {
            ExistingKind::Missing => WriteAction::Write,
            ExistingKind::Symlink => WriteAction::RemoveLinkThenWrite,
            ExistingKind::File => WriteAction::CompareThenWrite,
            ExistingKind::Other => WriteAction::Refuse,
        }),
{
    match existing {
        ExistingKind::Missing => WriteAction::Write,
        ExistingKind::Symlink => WriteAction::RemoveLinkThenWrite,
        ExistingKind::File => WriteAction::CompareThenWrite,
        ExistingKind::Other => WriteAction::Refuse,
    }
}

/// How a static file is copied to the output.
#[derive(Debug, Clone, Copy, PartialEq, Eq)]
pub enum CopyAction {
    /// The source is not a regular file (a link, say): copy nothing.
    SkipSource,
    /// Copy the file.
    Copy,
    /// Remove the link at the destination, then copy.
    RemoveLinkThenCopy,
    /// Compare the two files and copy only when they differ.
    CompareThenCopy,
    /// Leave the destination alone and fail: it is not a file.
    Refuse,
}

/// How a static file is copied over what is found at the destination;
/// `same_len` tells whether a destination file has the source's length.
pub fn copy_action(source_is_file: bool, existing: ExistingKind, same_len: bool) -> (r: CopyAction)
    ensures
        r == (if !source_is_file {
            CopyAction::SkipSource
        } else {
            match existing {
                ExistingKind::Missing => CopyAction::Copy,
                ExistingKind::Symlink => CopyAction::RemoveLinkThenCopy,
                ExistingKind::File => if same_len {
                    CopyAction::CompareThenCopy
                } else {
                    CopyAction::Copy
                },
                ExistingKind::Other => CopyAction::Refuse,
            }
        }),
{
    if !source_is_file {
        return CopyAction::SkipSource;
    }
    match existing {
        ExistingKind::Missing => CopyAction::Copy,
        ExistingKind::Symlink => CopyAction::RemoveLinkThenCopy,
        ExistingKind::File => if same_len {
            CopyAction::CompareThenCopy
        } else {
            CopyAction::Copy
        },
        ExistingKind::Other => CopyAction::Refuse,
    }
}

/// What two chunks read at the same offset of two files tell.
#[derive(Debug, Clone, Copy, PartialEq, Eq)]
pub enum ChunkVerdict {
    /// Both files ended together: they are equal.
    Equal,
    /// The files differ.
    Different,
    /// The chunks agree; read on.
    More,
}

/// Compares the next chunks read from two files.
pub fn compare_chunks(a: &[u8], b: &[u8]) -> (r: ChunkVerdict)
    ensures
        r == (if a@.len() != b@.len() {
            ChunkVerdict::Different
        } else if a@.len() == 0 {
            ChunkVerdict::Equal
        } else if a@ != b@ {
            ChunkVerdict::Different
        } else {
            ChunkVerdict::More
        }),
{
    if a.len() != b.len() {
        return ChunkVerdict::Different;
    }
    if a.len() == 0 {
        assert(a@ =~= b@);
        return ChunkVerdict::Equal;
    }
    let mut i: usize = 0;
    while i < a.len()
        invariant
            i <= a.len(),
            a@.len() == b@.len(),
            forall|k: int| 0 <= k < i ==> a@[k] == b@[k],
        decreases a.len() - i,
    {
        if a[i] != b[i] {
            return ChunkVerdict::Different;
        }
        i += 1;
    }
    assert(a@ =~= b@);
    ChunkVerdict::More
}

// ---------------------------------------------------------------------------
// Parallel compile jobs
// ---------------------------------------------------------------------------

/// How many compile jobs run at once: none without jobs; else the jobs
/// asked for on the command line, else in the settings, where 0 means the
/// machine's parallelism; at least one and at most one per job.
pub open spec fn effective_jobs_of(cli_jobs: Option<usize>, cfg_jobs: usize, job_count: usize, parallelism: usize) -> usize {
    if job_count == 0 {
        0
    } else {
        let requested = match cli_jobs {
            Some(j) => j,
            None => cfg_jobs,
        };
        let jobs = if requested == 0 {
            parallelism
        } else {
            requested
        };
        let at_least_one = if jobs < 1 {
            1
        } else {
            jobs
        };
        if at_least_one > job_count {
            job_count
        } else {
            at_least_one
        }
    }
}

/// How many compile jobs run at once, given the machine's available
/// parallelism (1 where it cannot be told).
pub fn effective_jobs(cli_jobs: Option<usize>, cfg_jobs: usize, job_count: usize, parallelism: usize) -> (r: usize)
    ensures
        r == effective_jobs_of(cli_jobs, cfg_jobs, job_count, parallelism),
{
    if job_count == 0 {
        return 0;
    }
    let requested = match cli_jobs {
        Some(j) => j,
        None => cfg_jobs,
    };
    let jobs = if requested == 0 {
        parallelism
    } else {
        requested
    };
    let at_least_one = if jobs < 1 {
        1
    } else {
        jobs
    };
    if at_least_one > job_count {
        job_count
    } else {
        at_least_one
    }
}

} // verus!
