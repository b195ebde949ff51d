//! Picking the filter files out of a release archive.
use vstd::prelude::*;
use std::io::Read;
use crate::text::{chars_of, string_of};

verus! {

#[verifier::external_type_specification]
#[verifier::external_body]
#[verifier::reject_recursive_types(R)]
pub struct ExZipArchive<R>(zip::ZipArchive<R>);

#[verifier::external_type_specification]
#[verifier::external_body]
#[verifier::reject_recursive_types(T)]
pub struct ExCursor<T>(std::io::Cursor<T>);

#[verifier::external_type_specification]
#[verifier::external_body]
pub struct ExZipError(zip::result::ZipError);

/// An archive read from bytes held in memory.
pub type Archive = zip::ZipArchive<std::io::Cursor<Vec<u8>>>;

/// The members of an opened archive, in index order: each member's path
/// inside the archive, whether its entry can be located in the archive, and
/// its decompressed bytes when it can be read to its end.
pub uninterp spec fn archive_members(a: Archive) -> Seq<(Seq<char>, bool, Option<Seq<u8>>)>;

/// Whether the zip format reading of `bytes` finds a central directory.
pub uninterp spec fn zip_opens(bytes: Seq<u8>) -> bool;

/// The members that the zip format reading of `bytes` finds, in index order,
/// described as in `archive_members`.
pub uninterp spec fn zip_members(bytes: Seq<u8>) -> Seq<(Seq<char>, bool, Option<Seq<u8>>)>;

/// Relies on `zip::ZipArchive::new`: it succeeds on the bytes that hold a
/// readable central directory, and the archive then holds the members that
/// the bytes encode.
#[verifier::external_body]
fn open_archive(bytes: Vec<u8>) -> (r: Result<Archive, zip::result::ZipError>)
    ensures
        r is Ok <==> zip_opens(bytes@),
        r is Ok ==> archive_members(r->Ok_0) == zip_members(bytes@),
{
    zip::ZipArchive::new(std::io::Cursor::new(bytes))
}

/// Relies on `zip::ZipArchive::len`: the number of members.
#[verifier::external_body]
fn member_count(a: &Archive) -> (r: usize)
    ensures
        r == archive_members(*a).len(),
{
    a.len()
}

/// Relies on `zip::ZipArchive::by_index_raw` and `ZipFile::name`: the path of
/// member `i`, when its entry can be located; nothing is decompressed, and
/// the members stay as they are.
#[verifier::external_body]
fn member_name(a: &mut Archive, i: usize) -> (r: Result<String, zip::result::ZipError>)
    requires
        i < archive_members(*old(a)).len(),
    ensures
        archive_members(*final(a)) == archive_members(*old(a)),
        r is Ok <==> archive_members(*old(a))[i as int].1,
        r is Ok ==> r->Ok_0@ == archive_members(*old(a))[i as int].0,
{
    a.by_index_raw(i).map(|f| f.name().to_owned())
}

/// Relies on `zip::ZipArchive::by_index_decrypt`, with an empty password, and
/// on reading the `ZipFile` to its end: the decompressed bytes of member
/// `i`, when it can be read; the members stay as they are. A refused password
/// is reported as `by_index` reports an encrypted member.
#[verifier::external_body]
fn member_content(a: &mut Archive, i: usize) -> (r: Result<Vec<u8>, zip::result::ZipError>)
    requires
        i < archive_members(*old(a)).len(),
    ensures
        archive_members(*final(a)) == archive_members(*old(a)),
        r is Ok <==> archive_members(*old(a))[i as int].2 is Some,
        r is Ok ==> r->Ok_0@ == archive_members(*old(a))[i as int].2->0,
{
    let mut f = a.by_index_decrypt(i, &[])?.map_err(
        |_| zip::result::ZipError::UnsupportedArchive(zip::result::ZipError::PASSWORD_REQUIRED),
    )?;
    let mut buf = Vec::new();
    f.read_to_end(&mut buf)?;
    Ok(buf)
}

pub open spec fn filter_extension() -> Seq<char> {
    seq!['.', 'f', 'i', 'l', 't', 'e', 'r']
}

/// A file name whose extension is exactly `filter`: it ends in `.filter` and
/// something stands before that dot.
pub open spec fn has_filter_extension(name: Seq<char>) -> bool {
    name.len() > filter_extension().len() && name.subrange(
        name.len() - filter_extension().len(),
        name.len() as int,
    ) == filter_extension()
}

/// `path` has exactly one `/`, at index `k`, with a non-empty directory
/// before it and a non-empty name after it.
pub open spec fn single_parent_at(path: Seq<char>, k: int) -> bool {
    0 < k < path.len() - 1 && path[k] == '/' && forall|j: int|
        0 <= j < path.len() && j != k ==> path[j] != '/'
}

/// The file name under which the archive member at `path` is installed: its
/// last path component, when the member lies exactly one directory below the
/// archive's top level and has the extension `filter`; `None` for a member
/// that is skipped.
pub open spec fn member_target(path: Seq<char>) -> Option<Seq<char>> {
    if exists|k: int|
        single_parent_at(path, k) && has_filter_extension(path.subrange(k + 1, path.len() as int))
    {
        let k = choose|k: int|
            single_parent_at(path, k) && has_filter_extension(
                path.subrange(k + 1, path.len() as int),
            );
        Some(path.subrange(k + 1, path.len() as int))
    } else {
        None
    }
}

/// The entry of member `i` can be located and, when it is installed, read
/// to its end.
pub open spec fn member_readable(m: Seq<(Seq<char>, bool, Option<Seq<u8>>)>, i: int) -> bool {
    m[i].1 && (member_target(m[i].0) is Some ==> m[i].2 is Some)
}

/// Every member is readable as far as extraction needs.
pub open spec fn members_readable(m: Seq<(Seq<char>, bool, Option<Seq<u8>>)>) -> bool {
    forall|i: int| 0 <= i < m.len() ==> #[trigger] member_readable(m, i)
}

/// The bytes are an archive from which the filter files can be extracted.
pub open spec fn archive_readable(bytes: Seq<u8>) -> bool {
    zip_opens(bytes) && members_readable(zip_members(bytes))
}

/// The installed files that a sequence of members yields, in member order.
pub open spec fn selected_members(m: Seq<(Seq<char>, bool, Option<Seq<u8>>)>) -> Seq<
    (Seq<char>, Seq<u8>),
>
    decreases m.len(),
{
    if m.len() == 0 {
        seq![]
    } else {
        let rest = selected_members(m.drop_last());
        match member_target(m.last().0) {
            Some(name) => rest.push((name, m.last().2->0)),
            None => rest,
        }
    }
}

/// The file name under which the archive member at `path` is installed, or
/// `None` when the member is skipped.
pub fn filter_target_name(path: &str) -> (r: Option<String>)
    ensures
        match member_target(path@) {
            Some(n) => r is Some && r->0@ == n,
            None => r is None,
        },
{
    let p = chars_of(path);
    let n: usize = p.len();
    let mut slash: usize = n;
    let mut count: usize = 0;
    let mut j: usize = 0;
    while j < n
        invariant
            n == p.len(),
            j <= n,
            count <= j,
            count == 0 ==> slash == n && forall|q: int| 0 <= q < j ==> p@[q] != '/',
            count == 1 ==> slash < j && p@[slash as int] == '/' && forall|q: int|
                0 <= q < j && q != slash ==> p@[q] != '/',
            count >= 2 ==> slash < j && p@[slash as int] == '/' && exists|q: int|
                0 <= q < j && q != slash && p@[q] == '/',
        decreases n - j,
    {
        if p[j] == '/' {
            if count == 0 {
                slash = j;
            }
            count = count + 1;
        }
        j = j + 1;
    }
    proof {
        reveal_strlit(".filter");
    }
    let ext = chars_of(".filter");
    assert(ext@ =~= filter_extension());
    if count != 1 || slash == 0 || slash + 1 >= n {
        assert forall|k: int| !single_parent_at(p@, k) by {
            if single_parent_at(p@, k) {
                if count == 0 {
                    assert(p@[k] != '/');
                } else if count >= 2 {
                    let q = choose|q: int| 0 <= q < n && q != slash && p@[q] == '/';
                    if q != k {
                        assert(p@[q] != '/');
                    } else {
                        assert(p@[slash as int] != '/');
                    }
                } else {
                    if k != slash {
                        assert(p@[k] != '/');
                    }
                }
            }
        }
        return None;
    }
    assert(single_parent_at(p@, slash as int));
    assert forall|k: int| single_parent_at(p@, k) implies k == slash by {
        if k != slash {
            assert(p@[slash as int] != '/');
        }
    }
    let name_len: usize = n - slash - 1;
    if name_len <= 7 {
        assert(!has_filter_extension(p@.subrange(slash + 1, p@.len() as int)));
        assert forall|k: int| single_parent_at(path@, k) implies !has_filter_extension(
            path@.subrange(k + 1, path@.len() as int),
        ) by {
            assert(k == slash);
        }
        return None;
    }
    let mut i: usize = 0;
    while i < 7
        invariant
            i <= 7,
            ext@ == filter_extension(),
            n == p.len(),
            name_len == n - slash - 1,
            name_len > 7,
            p@ == path@,
            forall|k: int| single_parent_at(p@, k) ==> k == slash,
            forall|q: int| 0 <= q < i ==> p@[n - 7 + q] == ext@[q],
        decreases 7 - i,
    {
        if p[n - 7 + i] != ext[i] {
            let ghost name = p@.subrange(slash + 1, n as int);
            assert(name.subrange(name.len() - 7, name.len() as int)[i as int] != ext@[i as int]);
            assert(!has_filter_extension(name));
            assert(!has_filter_extension(p@.subrange(slash + 1, p@.len() as int)));
            assert forall|k: int| single_parent_at(path@, k) implies !has_filter_extension(
                path@.subrange(k + 1, path@.len() as int),
            ) by {
                assert(k == slash);
            }
            return None;
        }
        i = i + 1;
    }
    let ghost name = p@.subrange(slash + 1, n as int);
    assert(name.subrange(name.len() - 7, name.len() as int) =~= filter_extension());
    let mut out: Vec<char> = Vec::new();
    let mut q: usize = slash + 1;
    while q < n
        invariant
            slash + 1 <= q <= n,
            n == p.len(),
            out@ == p@.subrange(slash + 1, q as int),
        decreases n - q,
    {
        out.push(p[q]);
        q = q + 1;
        assert(out@ =~= p@.subrange(slash + 1, q as int));
    }
    Some(string_of(out.as_slice()))
}

/// A filter file to be written into the configuration directory.
#[derive(Debug, Clone)]
pub struct ExtractedFile {
    pub name: String,
    pub content: Vec<u8>,
}

pub open spec fn files_view(v: Seq<ExtractedFile>) -> Seq<(Seq<char>, Seq<u8>)> {
    v.map_values(|f: ExtractedFile| (f.name@, f.content@))
}

/// The downloaded bytes are not an archive, or a member could not be read.
#[derive(Debug, Clone, Copy, PartialEq, Eq)]
pub struct ArchiveError;

/// The filter files that a release archive installs: one for each member that
/// lies exactly one directory below the top level and has the extension
/// `filter`, named by its last path component, in member order.
pub fn extract_filters(bytes: Vec<u8>) -> (r: Result<Vec<ExtractedFile>, ArchiveError>)
    ensures
        r is Ok <==> archive_readable(bytes@),
        r is Ok ==> files_view(r->Ok_0@) == selected_members(zip_members(bytes@)),
{
    let ghost input = bytes@;
    let mut a = match open_archive(bytes) {
        Ok(a) => a,
        Err(_) => return Err(ArchiveError),
    };
    let ghost members = archive_members(a);
    let count: usize = member_count(&a);
    let mut out: Vec<ExtractedFile> = Vec::new();
    let mut i: usize = 0;
    while i < count
        invariant
            members == zip_members(input),
            archive_members(a) == members,
            count == members.len(),
            i <= count,
            files_view(out@) == selected_members(members.subrange(0, i as int)),
            zip_opens(input),
            input == bytes@,
            forall|j: int| 0 <= j < i ==> #[trigger] member_readable(members, j),
        decreases count - i,
    {
        let path = match member_name(&mut a, i) {
            Ok(p) => p,
            Err(_) => {
                assert(!member_readable(members, i as int));
                return Err(ArchiveError);
            },
        };
        let ghost prefix = members.subrange(0, i + 1);
        assert(prefix.drop_last() =~= members.subrange(0, i as int));
        assert(prefix.last() == members[i as int]);
        match filter_target_name(path.as_str()) {
            Some(name) => {
                let content = match member_content(&mut a, i) {
                    Ok(c) => c,
                    Err(_) => {
                        assert(!member_readable(members, i as int));
                        return Err(ArchiveError);
                    },
                };
                out.push(ExtractedFile { name, content });
                assert(files_view(out@) =~= selected_members(prefix));
            },
            None => {},
        }
        assert(member_readable(members, i as int));
        i = i + 1;
    }
    assert(members.subrange(0, count as int) =~= members);
    assert(members_readable(members));
    Ok(out)
}


/// A member that lies one directory below the archive's top level and whose
/// name has the extension `filter` is installed under that name.
pub proof fn lemma_member_installed(dir: Seq<char>, name: Seq<char>)
    requires
        dir.len() > 0,
        !dir.contains('/'),
        !name.contains('/'),
        has_filter_extension(name),
    ensures
        member_target(dir + seq!['/'] + name) == Some(name),
{
    let path = dir + seq!['/'] + name;
    let k = dir.len() as int;
    assert(path[k] == '/');
    assert forall|j: int| 0 <= j < path.len() && j != k implies path[j] != '/' by {
        if j < k {
            assert(path[j] == dir[j]);
        } else {
            assert(path[j] == name[j - k - 1]);
        }
    }
    assert(path.subrange(k + 1, path.len() as int) =~= name);
    assert(single_parent_at(path, k));
    assert forall|k2: int| single_parent_at(path, k2) implies k2 == k by {
        if k2 != k {
            assert(path[k] != '/');
        }
    }
}

/// A member at the archive's top level, two or more directories below it, or
/// whose name lacks the extension `filter`, is skipped.
pub proof fn lemma_member_skipped(path: Seq<char>)
    requires
        !path.contains('/') || (exists|i: int, j: int|
            0 <= i < j < path.len() && path[i] == '/' && path[j] == '/') || (exists|k: int|
            0 <= k < path.len() && path[k] == '/' && !has_filter_extension(
                path.subrange(k + 1, path.len() as int),
            )),
    ensures
        member_target(path) is None,
{
    assert forall|k: int|
        single_parent_at(path, k) implies !has_filter_extension(
        path.subrange(k + 1, path.len() as int),
    ) by {
        if !path.contains('/') {
            assert(path[k] == '/');
        } else if exists|i: int, j: int|
            0 <= i < j < path.len() && path[i] == '/' && path[j] == '/' {
            let (i, j) = choose|i: int, j: int|
                0 <= i < j < path.len() && path[i] == '/' && path[j] == '/';
            if i != k {
                assert(path[i] != '/');
            } else {
                assert(path[j] != '/');
            }
        } else {
            let k2 = choose|k2: int|
                0 <= k2 < path.len() && path[k2] == '/' && !has_filter_extension(
                    path.subrange(k2 + 1, path.len() as int),
                );
            if k2 != k {
                assert(path[k2] != '/');
            }
        }
    }
}

} // verus!
