//! Rules on file names: what the extension of a file name is, which extension marks a
//! HEIC image, and what the JPEG for a source file is called.
//!
//! A file name is one component of a path, given as bytes; splitting a path into its
//! components is left to the caller. The extension of a file name is what follows its
//! last `.`, unless that `.` is the first byte of the name; what comes before it is the
//! stem. The name `..` has no extension. These are the rules by which
//! `std::path::Path` tells the stem and the extension of a file name apart.
//!
//! The name of a JPEG is the stem of its source, a `.` and `jpg`. That is the file name
//! that `Path::with_extension` gives, with one exception: for a name of two dots and an
//! extension, such as `..a`, it gives `..`, while here the extension is replaced like
//! any other, and the JPEG is called `..jpg`.
use vstd::prelude::*;

verus! {

/// The byte `.`.
pub open spec fn dot() -> u8 {
    0x2e
}

/// The index of the last `.` in `name`, if it has one.
pub open spec fn last_dot(name: Seq<u8>) -> Option<int>
    decreases name.len(),
{
    if name.len() == 0 {
        None
    } else if name.last() == dot() {
        Some(name.len() - 1)
    } else {
        last_dot(name.drop_last())
    }
}

/// The length of the stem of `name`: the index of its last `.`, or its whole length
/// where it has no extension.
pub open spec fn stem_len(name: Seq<u8>) -> int {
    if name == seq![dot(), dot()] {
        2
    } else {
        match last_dot(name) {
            Some(k) if k > 0 => k,
            _ => name.len() as int,
        }
    }
}

/// The extension of `name`: what follows the `.` behind its stem, if one does.
pub open spec fn extension(name: Seq<u8>) -> Option<Seq<u8>> {
    if stem_len(name) < name.len() {
        Some(name.skip(stem_len(name) + 1))
    } else {
        None
    }
}

/// `b` in lower case where it is an ASCII capital, else `b` itself.
pub open spec fn ascii_lower(b: u8) -> u8 {
    if 0x41 <= b && b <= 0x5a {
        (b + 0x20) as u8
    } else {
        b
    }
}

/// `s` with every ASCII capital in lower case.
pub open spec fn ascii_lowercase(s: Seq<u8>) -> Seq<u8> {
    s.map_values(|b: u8| ascii_lower(b))
}

/// The bytes `heic`: the extension of a HEIC image, in lower case.
pub open spec fn heic() -> Seq<u8> {
    seq![0x68, 0x65, 0x69, 0x63]
}

/// The bytes `jpg`: the extension of a JPEG image.
pub open spec fn jpg() -> Seq<u8> {
    seq![0x6a, 0x70, 0x67]
}

/// Whether `ext` is `heic` in any mix of upper and lower case.
pub open spec fn is_heic_extension(ext: Seq<u8>) -> bool {
    ascii_lowercase(ext) == heic()
}

/// Whether the extension of `name` marks a HEIC image.
pub open spec fn has_heic_extension(name: Seq<u8>) -> bool {
    match extension(name) {
        Some(ext) => is_heic_extension(ext),
        None => false,
    }
}

/// The name of the JPEG made from the file called `source`: `source` with its extension
/// replaced by `jpg`, or with `.jpg` added where it has none.
pub open spec fn target_of(source: Seq<u8>) -> Seq<u8> {
    source.take(stem_len(source)) + seq![dot()] + jpg()
}

/// The last `.` of a name stands at `k` where `name[k]` is one and none follows.
pub proof fn lemma_last_dot_at(name: Seq<u8>, k: int)
    requires
        0 <= k < name.len(),
        name[k] == dot(),
        forall|j: int| k < j < name.len() ==> #[trigger] name[j] != dot(),
    ensures
        last_dot(name) == Some(k),
    decreases name.len(),
{
    if k < name.len() - 1 {
        assert(name[name.len() - 1] != dot());
        lemma_last_dot_at(name.drop_last(), k);
    }
}

/// A name without any `.` has no last one.
pub proof fn lemma_last_dot_none(name: Seq<u8>)
    requires
        forall|j: int| 0 <= j < name.len() ==> #[trigger] name[j] != dot(),
    ensures
        last_dot(name) is None,
    decreases name.len(),
{
    if name.len() > 0 {
        assert(name[name.len() - 1] != dot());
        lemma_last_dot_none(name.drop_last());
    }
}

/// The last `.` of a name, where it has one, is a `.` of the name.
pub proof fn lemma_last_dot_bounds(name: Seq<u8>)
    ensures
        match last_dot(name) {
            Some(k) => 0 <= k < name.len() && name[k] == dot(),
            None => true,
        },
    decreases name.len(),
{
    if name.len() > 0 && name.last() != dot() {
        lemma_last_dot_bounds(name.drop_last());
    }
}

/// The stem of a name that is not empty is not empty either, and a `.` follows it
/// where it ends before the name does.
pub proof fn lemma_stem_bounds(name: Seq<u8>)
    requires
        name.len() > 0,
    ensures
        0 < stem_len(name) <= name.len(),
        stem_len(name) < name.len() ==> name[stem_len(name)] == dot(),
{
    lemma_last_dot_bounds(name);
}

/// The JPEG for a source has the stem of the source and the extension `jpg`.
pub proof fn lemma_target_has_jpg_extension(source: Seq<u8>)
    requires
        source.len() > 0,
    ensures
        stem_len(target_of(source)) == stem_len(source),
        target_of(source).take(stem_len(source)) == source.take(stem_len(source)),
        extension(target_of(source)) == Some(jpg()),
{
    let stem = stem_len(source);
    let target = target_of(source);
    lemma_stem_bounds(source);
    assert(target.len() == stem + 4);
    assert(target[stem] == dot());
    lemma_last_dot_at(target, stem);
    assert(target.skip(stem + 1) =~= jpg());
    assert(target.take(stem) =~= source.take(stem));
}

/// The JPEG for a JPEG of that name is the same file: converting what a conversion
/// wrote would write it again.
pub proof fn lemma_target_is_idempotent(source: Seq<u8>)
    requires
        source.len() > 0,
    ensures
        target_of(target_of(source)) == target_of(source),
{
    lemma_target_has_jpg_extension(source);
}

/// Sources that differ in their extension alone have the same target, so that the
/// conversion of one overwrites what the conversion of the other wrote.
pub proof fn lemma_same_stem_same_target(first: Seq<u8>, second: Seq<u8>)
    requires
        first.take(stem_len(first)) == second.take(stem_len(second)),
    ensures
        target_of(first) == target_of(second),
{
}

/// The extensions that mark a HEIC image are the sixteen spellings of `heic` in upper
/// and lower case.
pub proof fn lemma_heic_spellings(ext: Seq<u8>)
    ensures
        is_heic_extension(ext) <==> {
            &&& ext.len() == 4
            &&& (ext[0] == 0x68 || ext[0] == 0x48)
            &&& (ext[1] == 0x65 || ext[1] == 0x45)
            &&& (ext[2] == 0x69 || ext[2] == 0x49)
            &&& (ext[3] == 0x63 || ext[3] == 0x43)
        },
{
    let low = ascii_lowercase(ext);
    assert(low.len() == ext.len());
    if ext.len() == 4 {
        assert(low[0] == ascii_lower(ext[0]));
        assert(low[1] == ascii_lower(ext[1]));
        assert(low[2] == ascii_lower(ext[2]));
        assert(low[3] == ascii_lower(ext[3]));
        assert(heic()[0] == 0x68 && heic()[1] == 0x65 && heic()[2] == 0x69 && heic()[3] == 0x63);
        if (ext[0] == 0x68 || ext[0] == 0x48) && (ext[1] == 0x65 || ext[1] == 0x45) && (ext[2]
            == 0x69 || ext[2] == 0x49) && (ext[3] == 0x63 || ext[3] == 0x43) {
            assert(low =~= heic());
        }
    }
}

/// `b` in lower case where it is an ASCII capital, else `b` itself.
fn to_ascii_lower(b: u8) -> (r: u8)
    ensures
        r == ascii_lower(b),
{
    if 0x41 <= b && b <= 0x5a {
        b + 0x20
    } else {
        b
    }
}

/// The length of the stem of `name`.
pub fn stem_length(name: &[u8]) -> (end: usize)
    ensures
        end == stem_len(name@),
        end <= name.len(),
{
    let n = name.len();
    if n == 2 && name[0] == 0x2e && name[1] == 0x2e {
        assert(name@ =~= seq![dot(), dot()]);
        return 2;
    }
    assert(name@ != seq![dot(), dot()]) by {
        if name@ == seq![dot(), dot()] {
            assert(seq![dot(), dot()].len() == 2);
            assert(name@[0] == dot() && name@[1] == dot());
        }
    }
    let mut d: usize = n;
    while d > 0 && name[d - 1] != 0x2e
        invariant
            d <= n,
            n == name@.len(),
            forall|j: int| d <= j < n ==> #[trigger] name@[j] != dot(),
        decreases d,
    {
        d -= 1;
    }
    if d == 0 {
        proof {
            lemma_last_dot_none(name@);
        }
        n
    } else {
        proof {
            lemma_last_dot_at(name@, d - 1);
        }
        if d - 1 > 0 {
            d - 1
        } else {
            n
        }
    }
}

/// Whether what follows `from` in `ext` spells `heic` in any mix of case.
fn spells_heic(ext: &[u8], from: usize) -> (r: bool)
    requires
        from <= ext.len(),
    ensures
        r == is_heic_extension(ext@.skip(from as int)),
{
    let ghost tail = ext@.skip(from as int);
    let ghost low = ascii_lowercase(tail);
    if ext.len() - from != 4 {
        assert(low.len() == tail.len());
        false
    } else {
        let r = to_ascii_lower(ext[from]) == 0x68 && to_ascii_lower(ext[from + 1]) == 0x65
            && to_ascii_lower(ext[from + 2]) == 0x69 && to_ascii_lower(ext[from + 3]) == 0x63;
        proof {
            assert(low[0] == ascii_lower(tail[0]));
            assert(low[1] == ascii_lower(tail[1]));
            assert(low[2] == ascii_lower(tail[2]));
            assert(low[3] == ascii_lower(tail[3]));
            assert(heic()[0] == 0x68 && heic()[1] == 0x65 && heic()[2] == 0x69 && heic()[3]
                == 0x63);
            if r {
                assert(low =~= heic());
            }
        }
        r
    }
}

/// Whether `ext` is `heic` in any mix of upper and lower case.
pub fn is_heic(ext: &[u8]) -> (r: bool)
    ensures
        r == is_heic_extension(ext@),
{
    assert(ext@.skip(0) =~= ext@);
    spells_heic(ext, 0)
}

/// Whether the extension of the file name `name` marks a HEIC image.
pub fn name_is_heic(name: &[u8]) -> (r: bool)
    ensures
        r == has_heic_extension(name@),
{
    let end = stem_length(name);
    if end == name.len() {
        return false;
    }
    spells_heic(name, end + 1)
}

/// The extension of the file name `name`, if it has one.
pub fn extension_of(name: &[u8]) -> (r: Option<Vec<u8>>)
    ensures
        match r {
            Some(ext) => extension(name@) == Some(ext@),
            None => extension(name@) is None,
        },
{
    let end = stem_length(name);
    let n = name.len();
    if end == n {
        return None;
    }
    let mut ext: Vec<u8> = Vec::new();
    let mut i: usize = end + 1;
    while i < n
        invariant
            end + 1 <= i <= n,
            n == name@.len(),
            ext@ == name@.subrange(end + 1, i as int),
        decreases n - i,
    {
        ext.push(name[i]);
        assert(ext@ =~= name@.subrange(end + 1, i + 1));
        i += 1;
    }
    assert(ext@ =~= name@.skip(end + 1));
    Some(ext)
}

/// The name of the JPEG made from the file called `source`: `source` with its extension
/// replaced by `jpg`.
pub fn target_name(source: &[u8]) -> (target: Vec<u8>)
    ensures
        target@ == target_of(source@),
{
    let end = stem_length(source);
    let mut target: Vec<u8> = Vec::new();
    let mut i: usize = 0;
    while i < end
        invariant
            i <= end <= source@.len(),
            target@ == source@.take(i as int),
        decreases end - i,
    {
        target.push(source[i]);
        assert(target@ =~= source@.take(i + 1));
        i += 1;
    }
    target.push(0x2e);
    target.push(0x6a);
    target.push(0x70);
    target.push(0x67);
    assert(target@ =~= source@.take(end as int) + seq![dot()] + jpg());
    target
}

} // verus!
