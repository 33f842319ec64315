//! A byte-string model of the watched filesystem paths: absolute,
//! `/`-separated, no trailing separator. A path's parent is everything
//! before its last separator (the lone root `/` when the separator is
//! first), its file name everything after, and a name's stem is the part
//! before its last `.` — a leading `.` alone does not begin an extension.

use vstd::prelude::*;

use crate::DOT;
use crate::SLASH;

verus! {

/// Index of the rightmost occurrence of `b` in `s` before `hi`, or -1.
pub open spec fn last_byte_before(s: Seq<u8>, hi: int, b: u8) -> int
    decreases hi,
{
    if hi <= 0 {
        -1
    } else if s[hi - 1] == b {
        hi - 1
    } else {
        last_byte_before(s, hi - 1, b)
    }
}

/// The directory holding `s`: the bytes before the last `/` (the root `/`
/// itself when that separator comes first), or nothing when `s` has no
/// separator at all.
pub open spec fn parent_of(s: Seq<u8>) -> Option<Seq<u8>> {
    let k = last_byte_before(s, s.len() as int, SLASH);
    if k == -1 {
        None
    } else if k == 0 {
        Some(seq![SLASH])
    } else {
        Some(s.subrange(0, k))
    }
}

/// The bytes after the last `/` of `s`, or all of `s` when it has none.
pub open spec fn file_name_of(s: Seq<u8>) -> Seq<u8> {
    s.subrange(last_byte_before(s, s.len() as int, SLASH) + 1, s.len() as int)
}

/// The file name without its extension: the bytes before the last `.`,
/// or the whole name when no `.` follows the first byte.
pub open spec fn stem_of(name: Seq<u8>) -> Seq<u8> {
    let d = last_byte_before(name, name.len() as int, DOT);
    if d <= 0 {
        name
    } else {
        name.subrange(0, d)
    }
}

/// `name` placed under the directory `parent`.
pub open spec fn join(parent: Seq<u8>, name: Seq<u8>) -> Seq<u8> {
    if parent.len() > 0 && parent.last() == SLASH {
        parent + name
    } else {
        parent + seq![SLASH] + name
    }
}

/// A changed path enters the pipeline only when it does not sit directly
/// in the watched root and currently refers to a regular file.
pub open spec fn eligible(path: Seq<u8>, root: Seq<u8>, is_regular_file: bool) -> bool {
    parent_of(path) != Some(root) && is_regular_file
}

/// The two sibling paths a candidate path stands for: the stem of its
/// file name with `.mp3` and with `.txt`, under the same parent. Nothing
/// when the path has no parent or its stem is empty.
pub open spec fn sibling_paths(path: Seq<u8>) -> Option<(Seq<u8>, Seq<u8>)> {
    match parent_of(path) {
        None => None,
        Some(parent) => {
            let stem = stem_of(file_name_of(path));
            if stem.len() == 0 {
                None
            } else {
                Some((join(parent, stem + mp3_extension()), join(parent, stem + txt_extension())))
            }
        },
    }
}

/// The bytes of `.mp3`.
pub open spec fn mp3_extension() -> Seq<u8> {
    seq![DOT, 109u8, 112u8, 51u8]
}

/// The bytes of `.txt`.
pub open spec fn txt_extension() -> Seq<u8> {
    seq![DOT, 116u8, 120u8, 116u8]
}

/// Index of the rightmost occurrence of `b` in `s`, if any.
fn find_last_byte(s: &[u8], b: u8) -> (r: Option<usize>)
    ensures
        match r {
            Some(k) => k < s@.len() && k as int == last_byte_before(s@, s@.len() as int, b),
            None => last_byte_before(s@, s@.len() as int, b) == -1,
        },
{
    let mut hi: usize = s.len();
    while hi > 0
        invariant
            hi <= s@.len(),
            last_byte_before(s@, s@.len() as int, b) == last_byte_before(s@, hi as int, b),
        decreases hi,
    {
        if s[hi - 1] == b {
            return Some(hi - 1);
        }
        hi = hi - 1;
    }
    None
}

/// Whether two byte strings hold the same bytes.
pub fn bytes_eq(a: &[u8], b: &[u8]) -> (r: bool)
    ensures
        r == (a@ == b@),
{
    if a.len() != b.len() {
        return false;
    }
    let mut k: usize = 0;
    while k < a.len()
        invariant
            k <= a@.len(),
            a@.len() == b@.len(),
            forall|m: int| 0 <= m < k ==> a@[m] == b@[m],
        decreases a@.len() - k,
    {
        if a[k] != b[k] {
            return false;
        }
        k = k + 1;
    }
    proof {
        assert(a@ =~= b@);
    }
    true
}

/// Appends the bytes of `s` to `v`.
fn append_bytes(v: &mut Vec<u8>, s: &[u8])
    ensures
        final(v)@ == old(v)@ + s@,
{
    let mut k: usize = 0;
    while k < s.len()
        invariant
            k <= s@.len(),
            v@ == old(v)@ + s@.subrange(0, k as int),
        decreases s@.len() - k,
    {
        v.push(s[k]);
        assert(v@ =~= old(v)@ + s@.subrange(0, (k + 1) as int));
        k = k + 1;
    }
    assert(v@ =~= old(v)@ + s@);
}

/// The parent directory of `path`, per the model above.
pub fn parent_dir(path: &[u8]) -> (r: Option<Vec<u8>>)
    ensures
        match r {
            Some(p) => parent_of(path@) == Some(p@),
            None => parent_of(path@) is None,
        },
{
    match find_last_byte(path, SLASH) {
        None => None,
        Some(k) => {
            if k == 0 {
                let root = vec![SLASH];
                assert(root@ =~= seq![SLASH]);
                Some(root)
            } else {
                let mut p: Vec<u8> = Vec::new();
                let mut m: usize = 0;
                while m < k
                    invariant
                        m <= k <= path@.len(),
                        p@ == path@.subrange(0, m as int),
                    decreases k - m,
                {
                    p.push(path[m]);
                    assert(p@ =~= path@.subrange(0, (m + 1) as int));
                    m = m + 1;
                }
                Some(p)
            }
        },
    }
}

/// The file name of `path`, per the model above.
pub fn file_name(path: &[u8]) -> (r: Vec<u8>)
    ensures
        r@ == file_name_of(path@),
{
    let n: usize = path.len();
    let start: usize = match find_last_byte(path, SLASH) {
        None => 0,
        Some(k) => k + 1,
    };
    let mut v: Vec<u8> = Vec::new();
    let mut m: usize = start;
    while m < n
        invariant
            n == path@.len(),
            start <= m <= path@.len(),
            v@ == path@.subrange(start as int, m as int),
        decreases path@.len() - m,
    {
        v.push(path[m]);
        assert(v@ =~= path@.subrange(start as int, (m + 1) as int));
        m = m + 1;
    }
    v
}

/// The stem of a file name, per the model above.
pub fn name_stem(name: &[u8]) -> (r: Vec<u8>)
    ensures
        r@ == stem_of(name@),
{
    let end: usize = match find_last_byte(name, DOT) {
        None => name.len(),
        Some(d) => if d == 0 {
            name.len()
        } else {
            d
        },
    };
    let mut v: Vec<u8> = Vec::new();
    let mut m: usize = 0;
    while m < end
        invariant
            m <= end <= name@.len(),
            v@ == name@.subrange(0, m as int),
        decreases end - m,
    {
        v.push(name[m]);
        assert(v@ =~= name@.subrange(0, (m + 1) as int));
        m = m + 1;
    }
    assert(end == name@.len() ==> v@ =~= name@);
    v
}

/// Whether a changed path is eligible: it must not sit directly in the
/// watched root, and must currently be a regular file. The caller reports
/// what the path refers to on disk; a vanished path is simply not a
/// regular file.
pub fn should_process_file(path: &[u8], root: &[u8], is_regular_file: bool) -> (r: bool)
    ensures
        r == eligible(path@, root@, is_regular_file),
{
    if !is_regular_file {
        return false;
    }
    match parent_dir(path) {
        None => true,
        Some(p) => !bytes_eq(p.as_slice(), root),
    }
}

/// The two sibling paths expected for a candidate path: the same stem
/// with `.mp3` and with `.txt`, under the same parent directory. Whether
/// both actually exist is for the caller to check on disk.
pub fn extract_file_info(path: &[u8]) -> (r: Option<(Vec<u8>, Vec<u8>)>)
    ensures
        r.is_some() == sibling_paths(path@).is_some(),
        r.is_some() ==> r.unwrap().0@ == sibling_paths(path@).unwrap().0,
        r.is_some() ==> r.unwrap().1@ == sibling_paths(path@).unwrap().1,
{
    let parent = match parent_dir(path) {
        None => {
            return None;
        },
        Some(p) => p,
    };
    let name = file_name(path);
    let stem = name_stem(name.as_slice());
    if stem.len() == 0 {
        return None;
    }
    let sep: bool = parent.len() > 0 && parent[parent.len() - 1] == SLASH;
    let mut mp3: Vec<u8> = Vec::new();
    append_bytes(&mut mp3, parent.as_slice());
    if !sep {
        mp3.push(SLASH);
    }
    append_bytes(&mut mp3, stem.as_slice());
    mp3.push(DOT);
    mp3.push(109);
    mp3.push(112);
    mp3.push(51);
    let mut txt: Vec<u8> = Vec::new();
    append_bytes(&mut txt, parent.as_slice());
    if !sep {
        txt.push(SLASH);
    }
    append_bytes(&mut txt, stem.as_slice());
    txt.push(DOT);
    txt.push(116);
    txt.push(120);
    txt.push(116);
    proof {
        let par = parent_of(path@).unwrap();
        let st = stem_of(file_name_of(path@));
        assert(mp3@ =~= join(par, st + mp3_extension()));
        assert(txt@ =~= join(par, st + txt_extension()));
    }
    Some((mp3, txt))
}


/// A byte `b` at `k` with none after it (before `hi`) is what the
/// rightmost-byte search finds.
proof fn lemma_last_byte_found(s: Seq<u8>, hi: int, k: int, b: u8)
    requires
        0 <= k < hi,
        s[k] == b,
        forall|j: int| k < j < hi ==> s[j] != b,
    ensures
        last_byte_before(s, hi, b) == k,
    decreases hi,
{
    if hi - 1 > k {
        lemma_last_byte_found(s, hi - 1, k, b);
    }
}

/// Nothing to the right of the rightmost occurrence is that byte.
proof fn lemma_after_last_byte(s: Seq<u8>, hi: int, b: u8)
    ensures
        forall|j: int| last_byte_before(s, hi, b) < j < hi ==> s[j] != b,
    decreases hi,
{
    if hi > 0 {
        lemma_after_last_byte(s, hi - 1, b);
    }
}

/// The rightmost-byte search yields -1 or a position of that byte.
proof fn lemma_last_byte_range(s: Seq<u8>, hi: int, b: u8)
    requires
        hi <= s.len(),
    ensures
        last_byte_before(s, hi, b) == -1 || (0 <= last_byte_before(s, hi, b) < hi && s[
            last_byte_before(s, hi, b)
        ] == b),
    decreases hi,
{
    if hi > 0 {
        lemma_last_byte_range(s, hi - 1, b);
    }
}

/// What `join` does to the path structure: placing a separator-free,
/// non-empty name under a directory — the lone root, or one not ending in
/// a separator — gives a path whose parent is that directory back again
/// and whose file name is that name.
proof fn lemma_join_structure(parent: Seq<u8>, name: Seq<u8>)
    requires
        parent.len() > 0,
        parent == seq![SLASH] || parent.last() != SLASH,
        name.len() > 0,
        forall|j: int| 0 <= j < name.len() ==> name[j] != SLASH,
    ensures
        parent_of(join(parent, name)) == Some(parent),
        file_name_of(join(parent, name)) == name,
{
    if parent == seq![SLASH] {
        let s = join(parent, name);
        assert(s == parent + name);
        assert(s[0] == SLASH);
        assert forall|j: int| 0 < j < s.len() implies s[j] != SLASH by {
            assert(s[j] == name[j - 1]);
        }
        lemma_last_byte_found(s, s.len() as int, 0, SLASH);
        assert(s.subrange(1, s.len() as int) =~= name);
    } else {
        let s = join(parent, name);
        let pl = parent.len() as int;
        assert(s == parent + seq![SLASH] + name);
        assert(s[pl] == SLASH);
        assert forall|j: int| pl < j < s.len() implies s[j] != SLASH by {
            assert(s[j] == name[j - (pl + 1)]);
        }
        lemma_last_byte_found(s, s.len() as int, pl, SLASH);
        assert(s.subrange(0, pl) =~= parent);
        assert(s.subrange(pl + 1, s.len() as int) =~= name);
    }
}

/// A stem followed by an extension whose only `.` comes first keeps its
/// stem: the extension's dot is the rightmost one.
proof fn lemma_stem_of_extended(stem: Seq<u8>, ext: Seq<u8>)
    requires
        stem.len() > 0,
        ext.len() > 1,
        ext[0] == DOT,
        forall|j: int| 1 <= j < ext.len() ==> ext[j] != DOT,
    ensures
        stem_of(stem + ext) == stem,
{
    let name = stem + ext;
    assert(name[stem.len() as int] == DOT);
    assert forall|j: int| stem.len() < j < name.len() implies name[j] != DOT by {
        assert(name[j] == ext[j - stem.len()]);
    }
    lemma_last_byte_found(name, name.len() as int, stem.len() as int, DOT);
    assert(name.subrange(0, stem.len() as int) =~= stem);
}

/// The two sibling paths stand where their candidate path stands and for
/// the same recording: each keeps the candidate's parent directory, and
/// each file name's stem is the candidate's own. Holds of paths without
/// doubled separators, the only shape the model gives a meaning to.
pub proof fn lemma_siblings_share_stem_and_parent(path: Seq<u8>)
    requires
        sibling_paths(path) is Some,
        forall|j: int| 0 < j < path.len() ==> !(path[j - 1] == SLASH && #[trigger] path[j] == SLASH),
    ensures
        parent_of(sibling_paths(path).unwrap().0) == parent_of(path),
        parent_of(sibling_paths(path).unwrap().1) == parent_of(path),
        stem_of(file_name_of(sibling_paths(path).unwrap().0)) == stem_of(file_name_of(path)),
        stem_of(file_name_of(sibling_paths(path).unwrap().1)) == stem_of(file_name_of(path)),
{
    let parent = parent_of(path).unwrap();
    let name = file_name_of(path);
    let stem = stem_of(name);
    let k = last_byte_before(path, path.len() as int, SLASH);
    lemma_last_byte_range(path, path.len() as int, SLASH);

    // the file name sits after the last separator, so it holds none,
    // and neither does its stem
    lemma_after_last_byte(path, path.len() as int, SLASH);
    assert forall|j: int| 0 <= j < name.len() implies name[j] != SLASH by {
        assert(name[j] == path[k + 1 + j]);
    }
    assert forall|j: int| 0 <= j < stem.len() implies stem[j] == name[j] by {
        let d = last_byte_before(name, name.len() as int, DOT);
        lemma_last_byte_range(name, name.len() as int, DOT);
        if d > 0 {
            assert(stem == name.subrange(0, d));
            assert(stem[j] == name.subrange(0, d)[j]);
        }
    }

    lemma_last_byte_range(name, name.len() as int, DOT);
    assert(stem.len() <= name.len());

    // the parent is the lone root, or ends in no separator since the
    // path has no doubled one
    if k == 0 {
        assert(parent == seq![SLASH]);
    } else {
        assert(parent == path.subrange(0, k));
        assert(parent.last() == path[k - 1]);
        assert(path[k - 1] != SLASH);
    }

    let m_name = stem + mp3_extension();
    let t_name = stem + txt_extension();
    assert(mp3_extension()[0] == DOT && mp3_extension()[1] == 109u8 && mp3_extension()[2]
        == 112u8 && mp3_extension()[3] == 51u8);
    assert(txt_extension()[0] == DOT && txt_extension()[1] == 116u8 && txt_extension()[2]
        == 120u8 && txt_extension()[3] == 116u8);
    assert forall|j: int| 0 <= j < m_name.len() implies m_name[j] != SLASH by {
        if j < stem.len() {
            assert(m_name[j] == stem[j]);
            assert(stem[j] == name[j]);
            assert(name[j] != SLASH);
        } else {
            assert(m_name[j] == mp3_extension()[j - stem.len()]);
            assert(0 <= j - stem.len() < 4);
        }
    }
    assert forall|j: int| 0 <= j < t_name.len() implies t_name[j] != SLASH by {
        if j < stem.len() {
            assert(t_name[j] == stem[j]);
            assert(stem[j] == name[j]);
            assert(name[j] != SLASH);
        } else {
            assert(t_name[j] == txt_extension()[j - stem.len()]);
            assert(0 <= j - stem.len() < 4);
        }
    }
    lemma_join_structure(parent, m_name);
    lemma_join_structure(parent, t_name);
    lemma_stem_of_extended(stem, mp3_extension());
    lemma_stem_of_extended(stem, txt_extension());
    assert(parent_of(path) == Some(parent));
}

} // verus!
