//! The changes of a container as a tar archive, in the form image layers have.

use vstd::prelude::*;
use vstd::string::*;
use vstd::utf8::*;

use crate::bytes::push_bytes;
use crate::diff;
use crate::diff::{DiffEntry, DiffKind, FileKind};
use crate::error::Error;
use crate::text::{cat2, cat3, chars_of, is_empty, owned, string_of};

verus! {

/// The bytes of an archive come in blocks of this size.
pub const BLOCK: u64 = 512;

/// The first size that a header cannot hold.
pub const SIZE_LIMIT: u64 = 0x10_0000_0000;

/// The first mode that a header cannot hold.
pub const MODE_LIMIT: u32 = 0x100_0000;

/// The octal digits of a number.
pub open spec fn octal(n: nat) -> Seq<u8>
    decreases n,
{
    if n < 8 {
        seq![(48 + n) as u8]
    } else {
        octal(n / 8).push((48 + n % 8) as u8)
    }
}

/// The number that octal digits stand for.
pub open spec fn octal_value(d: Seq<u8>) -> nat
    decreases d.len(),
{
    if d.len() == 0 {
        0
    } else {
        8 * octal_value(d.drop_last()) + (d.last() - 48) as nat
    }
}

/// The digits of a number stand for it.
pub proof fn law_octal_digits(n: nat)
    ensures
        octal(n).len() > 0,
        octal_value(octal(n)) == n,
    decreases n,
{
    let d = octal(n);
    if n < 8 {
        assert(d.drop_last() =~= Seq::<u8>::empty());
        assert(octal_value(d.drop_last()) == 0);
    } else {
        law_octal_digits(n / 8);
        assert(d.drop_last() =~= octal(n / 8));
    }
}

/// So many zeros.
pub open spec fn zeros(n: nat) -> Seq<u8> {
    Seq::new(n, |i: int| 0u8)
}

/// Bytes filled up with zeros.
pub open spec fn padded(b: Seq<u8>, n: nat) -> Seq<u8> {
    b + zeros((n - b.len()) as nat)
}

/// A number in a field of a header: its octal digits, with zeros in front, and a zero byte.
pub open spec fn octal_field(value: nat, width: nat) -> Seq<u8> {
    let d = octal(value);
    if d.len() < width {
        Seq::new((width - 1 - d.len()) as nat, |i: int| 48u8) + d + seq![0u8]
    } else {
        d.take(width - 1) + seq![0u8]
    }
}

/// Eight times itself, so often.
pub open spec fn power8(k: nat) -> nat
    decreases k,
{
    if k == 0 {
        1
    } else {
        8 * power8((k - 1) as nat)
    }
}

/// How many digits a number has at most.
proof fn lemma_octal_len(n: nat, k: nat)
    requires
        k >= 1,
        n < power8(k),
    ensures
        1 <= octal(n).len() <= k,
    decreases k,
{
    law_octal_digits(n);
    if n >= 8 {
        if k == 1 {
            assert(power8(1) == 8 * power8(0));
        } else {
            lemma_octal_len(n / 8, (k - 1) as nat);
        }
    }
}

/// The numbers that fit in the fields.
proof fn lemma_powers()
    ensures
        power8(7) == 2097152,
        power8(8) == MODE_LIMIT,
        power8(12) == SIZE_LIMIT,
{
    reveal_with_fuel(power8, 13);
}

/// The octal digits of a number.
fn octal_digits(n: u64) -> (d: Vec<u8>)
    ensures
        d@ == octal(n as nat),
    decreases n,
{
    if n < 8 {
        let d = vec![48u8 + n as u8];
        proof {
            assert(d@ =~= octal(n as nat));
        }
        return d;
    }
    let mut d = octal_digits(n / 8);
    d.push(48u8 + (n % 8) as u8);
    d
}

/// A number in a field of a header.
pub fn write_octal(value: u64, width: usize) -> (f: Vec<u8>)
    requires
        width > 0,
        octal(value as nat).len() <= width,
    ensures
        f@ == octal_field(value as nat, width as nat),
        f@.len() == width,
{
    let d = octal_digits(value);
    let mut f: Vec<u8> = Vec::new();
    proof {
        law_octal_digits(value as nat);
    }
    if d.len() < width {
        let fill = width - 1 - d.len();
        let mut i: usize = 0;
        while i < fill
            invariant
                i <= fill,
                f@ == Seq::new(i as nat, |k: int| 48u8),
            decreases fill - i,
        {
            f.push(48);
            i += 1;
            proof {
                assert(f@ =~= Seq::new(i as nat, |k: int| 48u8));
            }
        }
        let ghost front = f@;
        let mut rest = d;
        f.append(&mut rest);
        f.push(0);
        proof {
            assert(f@ =~= octal_field(value as nat, width as nat));
        }
    } else {
        let mut i: usize = 0;
        while i < width - 1
            invariant
                i <= width - 1,
                d@.len() == width,
                f@ == d@.take(i as int),
            decreases width - 1 - i,
        {
            f.push(d[i]);
            i += 1;
            proof {
                assert(f@ =~= d@.take(i as int));
            }
        }
        f.push(0);
        proof {
            assert(f@ =~= octal_field(value as nat, width as nat));
        }
    }
    f
}

/// A number that leaves room for the zero byte can be read back from its field.
pub proof fn law_field_holds_number(value: nat, width: nat)
    requires
        octal(value).len() < width,
    ensures
        octal_field(value, width).len() == width,
        octal_value(octal_field(value, width).drop_last()) == value,
{
    let d = octal(value);
    let z = Seq::new((width - 1 - d.len()) as nat, |i: int| 48u8);
    assert(octal_field(value, width).drop_last() =~= z + d);
    law_octal_digits(value);
    lemma_leading_zeros(z.len(), d);
}

/// Zeros in front do not count.
proof fn lemma_leading_zeros(k: nat, d: Seq<u8>)
    ensures
        octal_value(Seq::new(k, |i: int| 48u8) + d) == octal_value(d),
    decreases d.len(), k,
{
    let z = Seq::new(k, |i: int| 48u8);
    let s = z + d;
    if d.len() > 0 {
        assert(s.drop_last() =~= z + d.drop_last());
        assert(s.last() == d.last());
        lemma_leading_zeros(k, d.drop_last());
    } else {
        assert(s =~= z);
        if k > 0 {
            let y = Seq::new((k - 1) as nat, |i: int| 48u8);
            assert(s.drop_last() =~= y + d);
            lemma_leading_zeros((k - 1) as nat, d);
        }
    }
}

/// Whether a name can be taken apart at a slash so that both parts fit in a header.
pub open spec fn fits_at(b: Seq<u8>, s: int) -> bool {
    b[s] == 47 && s <= 155 && b.len() - s - 1 <= 100
}

/// The last slash up to `s` at which a name can be taken apart.
pub open spec fn split_at(b: Seq<u8>, s: int) -> Option<int>
    decreases s + 1,
{
    if s < 0 {
        None
    } else if fits_at(b, s) {
        Some(s)
    } else {
        split_at(b, s - 1)
    }
}

/// A name as a header holds it: the end of it, and what goes in front.
pub open spec fn name_parts(b: Seq<u8>) -> Option<(Seq<u8>, Seq<u8>)> {
    if b.len() <= 100 {
        Some((b, Seq::empty()))
    } else if b.len() <= 255 {
        match split_at(b, b.len() - 1) {
            Some(s) => Some((b.skip(s + 1), b.take(s))),
            None => None,
        }
    } else {
        None
    }
}

/// A slash that was found is one.
proof fn lemma_split(b: Seq<u8>, s: int)
    requires
        s < b.len(),
        split_at(b, s) is Some,
    ensures
        0 <= split_at(b, s)->Some_0 <= s,
        fits_at(b, split_at(b, s)->Some_0),
    decreases s + 1,
{
    if s >= 0 && !fits_at(b, s) {
        lemma_split(b, s - 1);
    }
}

/// A name that a header holds in two parts is these parts with a slash between them; each part fits.
pub proof fn law_name_parts(b: Seq<u8>)
    requires
        name_parts(b) is Some,
    ensures
        name_parts(b)->Some_0.0.len() <= 100,
        name_parts(b)->Some_0.1.len() <= 155,
        b.len() <= 100 ==> name_parts(b)->Some_0.0 == b,
        b.len() > 100 ==> name_parts(b)->Some_0.1 + seq![47u8] + name_parts(b)->Some_0.0 == b,
{
    if b.len() > 100 {
        lemma_split(b, b.len() - 1);
        let s = split_at(b, b.len() - 1)->Some_0;
        assert(b.take(s) + seq![47u8] + b.skip(s + 1) =~= b);
    }
}

/// The sum of bytes.
pub open spec fn byte_sum(b: Seq<u8>) -> nat
    decreases b.len(),
{
    if b.len() == 0 {
        0
    } else {
        byte_sum(b.drop_last()) + b.last() as nat
    }
}

/// A sum of bytes is no more than so many times the largest byte.
proof fn lemma_sum_bound(b: Seq<u8>)
    ensures
        byte_sum(b) <= 255 * b.len(),
    decreases b.len(),
{
    if b.len() > 0 {
        lemma_sum_bound(b.drop_last());
    }
}

/// The header of a member up to its checksum.
pub open spec fn header_front(suffix: Seq<u8>, mode: nat, size: nat) -> Seq<u8> {
    padded(suffix, 100) + octal_field(mode, 8) + octal_field(0, 8) + octal_field(0, 8)
        + octal_field(size, 12) + octal_field(0, 12)
}

/// The header of a member behind its checksum.
pub open spec fn header_back(prefix: Seq<u8>, typeflag: u8, link: Seq<u8>) -> Seq<u8> {
    seq![typeflag] + padded(link, 100) + seq![117u8, 115, 116, 97, 114, 0] + seq![48u8, 48] + zeros(
        80,
    ) + padded(prefix, 155) + zeros(12)
}

/// Eight blanks, which stand for the checksum while it is computed.
pub open spec fn blanks() -> Seq<u8> {
    seq![32u8, 32, 32, 32, 32, 32, 32, 32]
}

/// The header of a member.
pub open spec fn header_bytes(
    suffix: Seq<u8>,
    prefix: Seq<u8>,
    mode: nat,
    size: nat,
    typeflag: u8,
    link: Seq<u8>,
) -> Seq<u8> {
    let front = header_front(suffix, mode, size);
    let back = header_back(prefix, typeflag, link);
    front + octal_field(byte_sum(front + blanks() + back), 8) + back
}

/// The header of a member with a name, or why there is none.
pub open spec fn header_of(name: Seq<char>, mode: nat, size: nat, typeflag: u8, link: Seq<char>) -> Result<
    Seq<u8>,
    Seq<char>,
> {
    match name_parts(encode_utf8(name)) {
        None => Err("tar path too long for ustar header: "@ + name),
        Some(parts) => if encode_utf8(link).len() > 100 {
            Err("tar header field too long"@)
        } else {
            Ok(header_bytes(parts.0, parts.1, mode, size, typeflag, encode_utf8(link)))
        },
    }
}

/// Adds so many zeros.
fn push_zeros(v: &mut Vec<u8>, n: usize)
    ensures
        final(v)@ == old(v)@ + zeros(n as nat),
{
    let ghost was = v@;
    let mut i: usize = 0;
    proof {
        assert(v@ =~= was + zeros(0));
    }
    while i < n
        invariant
            i <= n,
            v@ == was + zeros(i as nat),
        decreases n - i,
    {
        v.push(0);
        i += 1;
        proof {
            assert(v@ =~= was + zeros(i as nat));
        }
    }
}

/// Adds bytes, filled up with zeros.
fn push_padded(v: &mut Vec<u8>, b: &Vec<u8>, n: usize)
    requires
        b@.len() <= n,
    ensures
        final(v)@ == old(v)@ + padded(b@, n as nat),
{
    let ghost was = v@;
    push_bytes(v, b);
    push_zeros(v, n - b.len());
    proof {
        assert(v@ =~= was + padded(b@, n as nat));
    }
}

/// The bytes from one place to another.
fn part(b: &Vec<u8>, from: usize, to: usize) -> (p: Vec<u8>)
    requires
        from <= to <= b@.len(),
    ensures
        p@ == b@.subrange(from as int, to as int),
{
    let mut p: Vec<u8> = Vec::new();
    let mut i: usize = from;
    proof {
        assert(p@ =~= b@.subrange(from as int, from as int));
    }
    while i < to
        invariant
            from <= i <= to <= b@.len(),
            p@ == b@.subrange(from as int, i as int),
        decreases to - i,
    {
        p.push(b[i]);
        i += 1;
        proof {
            assert(p@ =~= b@.subrange(from as int, i as int));
        }
    }
    p
}

/// A name as a header holds it.
pub fn write_tar_name(name: &str) -> (r: Result<(Vec<u8>, Vec<u8>), Error>)
    ensures
        match r {
            Ok(p) => name_parts(encode_utf8(name@)) == Some((p.0@, p.1@)),
            Err(e) => name_parts(encode_utf8(name@)) is None && e@
                == "tar path too long for ustar header: "@ + name@,
        },
{
    let b = name.as_bytes_vec();
    if b.len() <= 100 {
        let empty: Vec<u8> = Vec::new();
        return Ok((b, empty));
    }
    if b.len() <= 255 {
        let mut s: usize = b.len();
        while s > 0
            invariant
                s <= b@.len(),
                b@ == encode_utf8(name@),
                100 < b@.len() <= 255,
                split_at(b@, b@.len() - 1) == split_at(b@, s - 1),
            decreases s,
        {
            let k = s - 1;
            if b[k] == 47 && k <= 155 && b.len() - k - 1 <= 100 {
                let suffix = part(&b, k + 1, b.len());
                let prefix = part(&b, 0, k);
                proof {
                    assert(suffix@ =~= b@.skip(k + 1));
                    assert(prefix@ =~= b@.take(k as int));
                }
                return Ok((suffix, prefix));
            }
            s -= 1;
        }
    }
    Err(Error::new(cat2("tar path too long for ustar header: ", name)))
}

/// Adds the sum of some bytes.
fn sum_of(b: &Vec<u8>) -> (n: u64)
    requires
        b@.len() <= 512,
    ensures
        n == byte_sum(b@),
        n <= 130560,
{
    let mut n: u64 = 0;
    let mut i: usize = 0;
    proof {
        assert(b@.take(0) =~= Seq::<u8>::empty());
    }
    while i < b.len()
        invariant
            i <= b@.len() <= 512,
            n == byte_sum(b@.take(i as int)),
            n <= 255 * i,
        decreases b@.len() - i,
    {
        proof {
            assert(b@.take(i + 1).drop_last() =~= b@.take(i as int));
            assert(b@.take(i + 1).last() == b@[i as int]);
        }
        n = n + b[i] as u64;
        i += 1;
    }
    proof {
        assert(b@.take(b@.len() as int) =~= b@);
    }
    n
}

/// The front of a header.
fn write_front(suffix: &Vec<u8>, mode: u32, size: u64) -> (f: Vec<u8>)
    requires
        suffix@.len() <= 100,
        mode < MODE_LIMIT,
        size < SIZE_LIMIT,
    ensures
        f@ == header_front(suffix@, mode as nat, size as nat),
        f@.len() == 148,
{
    proof {
        lemma_powers();
        lemma_octal_len(mode as nat, 8);
        lemma_octal_len(size as nat, 12);
        lemma_octal_len(0, 8);
        lemma_octal_len(0, 12);
    }
    let mut f: Vec<u8> = Vec::new();
    push_padded(&mut f, suffix, 100);
    proof {
        assert(f@ =~= padded(suffix@, 100));
    }
    let a = write_octal(mode as u64, 8);
    push_bytes(&mut f, &a);
    let b = write_octal(0, 8);
    push_bytes(&mut f, &b);
    push_bytes(&mut f, &b);
    let c = write_octal(size, 12);
    push_bytes(&mut f, &c);
    let d = write_octal(0, 12);
    push_bytes(&mut f, &d);
    f
}

/// The back of a header.
fn write_back(prefix: &Vec<u8>, typeflag: u8, link: &Vec<u8>) -> (f: Vec<u8>)
    requires
        prefix@.len() <= 155,
        link@.len() <= 100,
    ensures
        f@ == header_back(prefix@, typeflag, link@),
        f@.len() == 356,
{
    let mut f: Vec<u8> = Vec::new();
    f.push(typeflag);
    proof {
        assert(f@ =~= seq![typeflag]);
    }
    push_padded(&mut f, link, 100);
    let magic: Vec<u8> = vec![117u8, 115u8, 116u8, 97u8, 114u8, 0u8];
    proof {
        assert(magic@ =~= seq![117u8, 115, 116, 97, 114, 0]);
    }
    push_bytes(&mut f, &magic);
    let version: Vec<u8> = vec![48u8, 48u8];
    proof {
        assert(version@ =~= seq![48u8, 48]);
    }
    push_bytes(&mut f, &version);
    push_zeros(&mut f, 80);
    push_padded(&mut f, prefix, 155);
    push_zeros(&mut f, 12);
    f
}

/// The header of a member.
pub fn write_tar_header(name: &str, mode: u32, size: u64, typeflag: u8, link: &str) -> (r: Result<
    Vec<u8>,
    Error,
>)
    requires
        mode < MODE_LIMIT,
        size < SIZE_LIMIT,
    ensures
        match r {
            Ok(h) => header_of(name@, mode as nat, size as nat, typeflag, link@) == Ok::<
                Seq<u8>,
                Seq<char>,
            >(h@) && h@.len() == 512,
            Err(e) => header_of(name@, mode as nat, size as nat, typeflag, link@) == Err::<
                Seq<u8>,
                Seq<char>,
            >(e@),
        },
{
    let (suffix, prefix) = match write_tar_name(name) {
        Ok(p) => p,
        Err(e) => {
            return Err(e);
        },
    };
    proof {
        law_name_parts(encode_utf8(name@));
    }
    let target = link.as_bytes_vec();
    if target.len() > 100 {
        return Err(Error::new(owned("tar header field too long")));
    }
    let front = write_front(&suffix, mode, size);
    let back = write_back(&prefix, typeflag, &target);
    let mut whole: Vec<u8> = Vec::new();
    push_bytes(&mut whole, &front);
    proof {
        assert(whole@ =~= front@);
    }
    let gap: Vec<u8> = vec![32u8, 32u8, 32u8, 32u8, 32u8, 32u8, 32u8, 32u8];
    proof {
        assert(gap@ =~= blanks());
    }
    push_bytes(&mut whole, &gap);
    push_bytes(&mut whole, &back);
    let sum = sum_of(&whole);
    proof {
        lemma_powers();
        lemma_octal_len(sum as nat, 7);
    }
    let check = write_octal(sum, 8);
    let mut h: Vec<u8> = Vec::new();
    push_bytes(&mut h, &front);
    proof {
        assert(h@ =~= front@);
    }
    push_bytes(&mut h, &check);
    push_bytes(&mut h, &back);
    Ok(h)
}

/// How many zeros fill the last block of a file.
pub open spec fn fill(size: nat) -> nat {
    ((512 - size % 512) % 512) as nat
}

/// How many zeros fill the last block of a file.
pub fn pad_tar(size: u64) -> (n: usize)
    ensures
        n == fill(size as nat),
        (size + n) % 512 == 0,
{
    ((512 - size % 512) % 512) as usize
}

/// The name under which an archive notes that a file was removed.
pub open spec fn whiteout_name(p: Seq<char>) -> Seq<char> {
    match p.index_of_last('/') {
        Some(k) => p.take(k) + "/.wh."@ + p.skip(k + 1),
        None => ".wh."@ + p,
    }
}

/// The name under which an archive notes that a file was removed.
pub fn tar_whiteout_path(p: &str) -> (s: String)
    ensures
        s@ == whiteout_name(p@),
{
    let v = chars_of(p);
    let mut k: usize = v.len();
    proof {
        p@.index_of_last_ensures('/');
    }
    while k > 0
        invariant
            k <= v@.len(),
            v@ == p@,
            forall|j: int| k <= j < v@.len() ==> v@[j] != '/',
        decreases k,
    {
        if v[k - 1] == '/' {
            let dir = string_of(vstd::slice::slice_subrange(v.as_slice(), 0, k - 1));
            let name = string_of(vstd::slice::slice_subrange(v.as_slice(), k, v.len()));
            proof {
                p@.index_of_last_ensures('/');
                assert(p@.contains('/'));
                assert(dir@ =~= p@.take(k - 1));
                assert(name@ =~= p@.skip(k as int));
            }
            return cat3(dir.as_str(), "/.wh.", name.as_str());
        }
        k -= 1;
    }
    proof {
        assert(!p@.contains('/'));
    }
    cat2(".wh.", p)
}

/// The name under which an archive notes that a directory hides what is below it.
pub open spec fn opaque_name(p: Seq<char>) -> Seq<char> {
    if p.len() == 0 {
        ".wh..wh..opq"@
    } else {
        p + "/.wh..wh..opq"@
    }
}

/// The name of a directory in an archive: it ends in a slash.
pub open spec fn dir_name(p: Seq<char>) -> Seq<char> {
    if p.len() > 0 && p.last() == '/' {
        p
    } else {
        p.push('/')
    }
}

/// The name of a directory in an archive.
fn tar_dir_name(p: &str) -> (s: String)
    ensures
        s@ == dir_name(p@),
{
    let n = p.unicode_len();
    let mut s = owned(p);
    if n == 0 || p.get_char(n - 1) != '/' {
        s.push('/');
    }
    s
}

/// A file of the upper layer, to go into an archive.
#[derive(Debug)]
pub struct TarSource {
    pub kind: FileKind,
    pub mode: u32,
    pub len: u64,
    /// Where a link points.
    pub link: String,
    /// What a regular file holds.
    pub content: Vec<u8>,
}

/// The bits of a mode that an archive keeps.
pub open spec fn kept_mode(mode: u32) -> u32 {
    mode & 0xfff
}

/// What an archive holds of a file; sockets, devices and fifos are left out.
pub open spec fn member_of(name: Seq<char>, s: TarSource) -> Result<Seq<u8>, Seq<char>> {
    let mode = kept_mode(s.mode) as nat;
    match s.kind {
        FileKind::Directory => header_of(dir_name(name), mode, 0, 53, ""@),
        FileKind::Symlink => header_of(name, mode, 0, 50, s.link@),
        FileKind::File => match header_of(name, mode, s.len as nat, 48, ""@) {
            Ok(h) => Ok(h + s.content@ + zeros(fill(s.len as nat))),
            Err(f) => Err(f),
        },
        _ => Ok(Seq::empty()),
    }
}

/// What an archive holds of a change; `source` is the file in the upper layer.
pub open spec fn change_member(e: diff::DiffView, source: Option<TarSource>) -> Result<
    Seq<u8>,
    Seq<char>,
> {
    match e.kind {
        DiffKind::Deleted => header_of(whiteout_name(e.path), 0, 0, 48, ""@),
        DiffKind::OpaqueDir => header_of(opaque_name(e.path), 0, 0, 48, ""@),
        _ => match (e.upper_path, source) {
            (Some(_), Some(s)) => member_of(e.path, s),
            _ => Ok(Seq::empty()),
        },
    }
}

/// What an archive holds of changes, or what is wrong with the first that is wrong.
pub open spec fn members(es: Seq<diff::DiffView>, sources: Seq<Option<TarSource>>) -> Result<
    Seq<u8>,
    Seq<char>,
>
    decreases es.len(),
{
    if es.len() == 0 {
        Ok(Seq::empty())
    } else {
        match members(es.drop_last(), sources) {
            Err(f) => Err(f),
            Ok(head) => match change_member(es.last(), sources[es.len() - 1]) {
                Err(f) => Err(f),
                Ok(b) => Ok(head + b),
            },
        }
    }
}

/// The archive of changes: its members, and two empty blocks.
pub open spec fn archive(es: Seq<diff::DiffView>, sources: Seq<Option<TarSource>>) -> Result<
    Seq<u8>,
    Seq<char>,
> {
    match members(es, sources) {
        Err(f) => Err(f),
        Ok(b) => Ok(b + zeros(1024)),
    }
}

/// A result in terms of what it holds.
pub open spec fn bytes_result(r: Result<Vec<u8>, Error>) -> Result<Seq<u8>, Seq<char>> {
    match r {
        Ok(v) => Ok(v@),
        Err(e) => Err(e@),
    }
}

/// What an archive holds of a file.
pub fn write_tar_path(name: &str, s: &TarSource) -> (r: Result<Vec<u8>, Error>)
    requires
        s.kind == FileKind::File ==> s.len < SIZE_LIMIT,
    ensures
        member_of(name@, *s) == bytes_result(r),
{
    let mode: u32 = s.mode & 0xfff;
    proof {
        let m = s.mode;
        assert(m & 0xfff < 0x100_0000u32) by (bit_vector);
        reveal_strlit("");
    }
    match s.kind {
        FileKind::Directory => {
            let dir = tar_dir_name(name);
            write_tar_header(dir.as_str(), mode, 0, 53, "")
        },
        FileKind::Symlink => write_tar_header(name, mode, 0, 50, s.link.as_str()),
        FileKind::File => {
            let mut h = match write_tar_header(name, mode, s.len, 48, "") {
                Ok(h) => h,
                Err(e) => {
                    return Err(e);
                },
            };
            push_bytes(&mut h, &s.content);
            push_zeros(&mut h, pad_tar(s.len));
            Ok(h)
        },
        _ => {
            let none: Vec<u8> = Vec::new();
            Ok(none)
        },
    }
}

/// The header of an empty file with mode zero.
pub fn write_tar_empty_file(name: &str) -> (r: Result<Vec<u8>, Error>)
    ensures
        header_of(name@, 0, 0, 48, ""@) == bytes_result(r),
{
    write_tar_header(name, 0, 0, 48, "")
}

/// What an archive holds of a change.
fn write_change(e: &DiffEntry, source: &Option<TarSource>) -> (r: Result<Vec<u8>, Error>)
    requires
        *source matches Some(s) ==> s.kind == FileKind::File ==> s.len < SIZE_LIMIT,
    ensures
        change_member(e@, *source) == bytes_result(r),
{
    match e.kind {
        DiffKind::Deleted => {
            let name = tar_whiteout_path(e.path.as_str());
            write_tar_empty_file(name.as_str())
        },
        DiffKind::OpaqueDir => {
            let name = if is_empty(e.path.as_str()) {
                owned(".wh..wh..opq")
            } else {
                cat2(e.path.as_str(), "/.wh..wh..opq")
            };
            write_tar_empty_file(name.as_str())
        },
        _ => {
            if e.upper_path.is_some() {
                if let Some(s) = source {
                    return write_tar_path(e.path.as_str(), s);
                }
            }
            let none: Vec<u8> = Vec::new();
            Ok(none)
        },
    }
}

/// Something wrong early on is what is wrong with the archive.
proof fn lemma_members_stuck(es: Seq<diff::DiffView>, sources: Seq<Option<TarSource>>, k: int)
    requires
        0 <= k <= es.len(),
        members(es.subrange(0, k), sources) is Err,
    ensures
        members(es, sources) == members(es.subrange(0, k), sources),
    decreases es.len() - k,
{
    if k == es.len() {
        assert(es.subrange(0, k) =~= es);
    } else {
        assert(es.subrange(0, k + 1).drop_last() =~= es.subrange(0, k));
        lemma_members_stuck(es, sources, k + 1);
    }
}

/// The archive of changes; `sources` are the files of the upper layer, one for each change.
pub fn write_overlay_tar(es: &Vec<DiffEntry>, sources: &Vec<Option<TarSource>>) -> (r: Result<
    Vec<u8>,
    Error,
>)
    requires
        sources@.len() == es@.len(),
        forall|i: int|
            0 <= i < sources@.len() ==> ((#[trigger] sources@[i]) matches Some(s) ==> s.kind
                == FileKind::File ==> s.len < SIZE_LIMIT),
    ensures
        archive(diff::diff_views(es@), sources@) == bytes_result(r),
{
    let ghost all = diff::diff_views(es@);
    let mut out: Vec<u8> = Vec::new();
    let mut i: usize = 0;
    proof {
        assert(all.subrange(0, 0) =~= Seq::<diff::DiffView>::empty());
    }
    while i < es.len()
        invariant
            i <= es@.len(),
            sources@.len() == es@.len(),
            all == diff::diff_views(es@),
            forall|i: int|
                0 <= i < sources@.len() ==> ((#[trigger] sources@[i]) matches Some(s) ==> s.kind
                    == FileKind::File ==> s.len < SIZE_LIMIT),
            members(all.subrange(0, i as int), sources@) == Ok::<Seq<u8>, Seq<char>>(out@),
        decreases es@.len() - i,
    {
        proof {
            let part = all.subrange(0, i + 1);
            assert(part.drop_last() =~= all.subrange(0, i as int));
            assert(part.last() == es@[i as int]@);
        }
        let b = match write_change(&es[i], &sources[i]) {
            Ok(b) => b,
            Err(e) => {
                proof {
                    lemma_members_stuck(all, sources@, i + 1);
                }
                return Err(e);
            },
        };
        push_bytes(&mut out, &b);
        i += 1;
    }
    proof {
        assert(all.subrange(0, all.len() as int) =~= all);
    }
    push_zeros(&mut out, 1024);
    Ok(out)
}

/// How long a header is.
proof fn lemma_header_len(name: Seq<char>, mode: nat, size: nat, typeflag: u8, link: Seq<char>)
    requires
        mode < MODE_LIMIT,
        size < SIZE_LIMIT,
        header_of(name, mode, size, typeflag, link) is Ok,
    ensures
        header_of(name, mode, size, typeflag, link)->Ok_0.len() == 512,
{
    let parts = name_parts(encode_utf8(name))->Some_0;
    law_name_parts(encode_utf8(name));
    lemma_powers();
    lemma_octal_len(mode, 8);
    lemma_octal_len(size, 12);
    lemma_octal_len(0, 8);
    lemma_octal_len(0, 12);
    let front = header_front(parts.0, mode, size);
    let back = header_back(parts.1, typeflag, encode_utf8(link));
    assert(front.len() == 148);
    assert(back.len() == 356);
    let sum = byte_sum(front + blanks() + back);
    lemma_sum_bound(front + blanks() + back);
    lemma_octal_len(sum, 7);
}

/// Whether a file is such as an archive can hold.
pub open spec fn archivable(s: Option<TarSource>) -> bool {
    s matches Some(s) ==> s.kind == FileKind::File ==> s.len < SIZE_LIMIT && s.content@.len()
        == s.len
}

/// What an archive holds of a change fills whole blocks.
proof fn lemma_change_blocks(e: diff::DiffView, s: Option<TarSource>)
    requires
        archivable(s),
        change_member(e, s) is Ok,
    ensures
        change_member(e, s)->Ok_0.len() % 512 == 0,
{
    match e.kind {
        DiffKind::Deleted => {
            lemma_header_len(whiteout_name(e.path), 0, 0, 48, ""@);
        },
        DiffKind::OpaqueDir => {
            lemma_header_len(opaque_name(e.path), 0, 0, 48, ""@);
        },
        _ => {
            if e.upper_path is Some && s is Some {
                let src = s->Some_0;
                let mode = kept_mode(src.mode) as nat;
                let m = src.mode;
                assert(m & 0xfff < 0x100_0000u32) by (bit_vector);
                match src.kind {
                    FileKind::Directory => {
                        lemma_header_len(dir_name(e.path), mode, 0, 53, ""@);
                    },
                    FileKind::Symlink => {
                        lemma_header_len(e.path, mode, 0, 50, src.link@);
                    },
                    FileKind::File => {
                        lemma_header_len(e.path, mode, src.len as nat, 48, ""@);
                        assert((512 + src.len + fill(src.len as nat)) % 512 == 0);
                    },
                    _ => {},
                }
            }
        },
    }
}

/// The members of an archive fill whole blocks.
proof fn lemma_member_blocks(es: Seq<diff::DiffView>, sources: Seq<Option<TarSource>>)
    requires
        sources.len() >= es.len(),
        forall|i: int| 0 <= i < sources.len() ==> archivable(#[trigger] sources[i]),
        members(es, sources) is Ok,
    ensures
        members(es, sources)->Ok_0.len() % 512 == 0,
    decreases es.len(),
{
    if es.len() > 0 {
        lemma_member_blocks(es.drop_last(), sources);
        lemma_change_blocks(es.last(), sources[es.len() - 1]);
    }
}

/// An archive is made of whole blocks, of which the last two are empty.
pub proof fn law_archive_blocks(es: Seq<diff::DiffView>, sources: Seq<Option<TarSource>>)
    requires
        sources.len() == es.len(),
        forall|i: int| 0 <= i < sources.len() ==> archivable(#[trigger] sources[i]),
        archive(es, sources) is Ok,
    ensures
        archive(es, sources)->Ok_0.len() % 512 == 0,
        archive(es, sources)->Ok_0.len() >= 1024,
        archive(es, sources)->Ok_0.skip(archive(es, sources)->Ok_0.len() - 1024) == zeros(1024),
{
    lemma_member_blocks(es, sources);
    let b = members(es, sources)->Ok_0;
    let a = archive(es, sources)->Ok_0;
    assert(a.skip(a.len() - 1024) =~= zeros(1024));
}

/// Where each part of a header is.
proof fn lemma_header_places(
    suffix: Seq<u8>,
    prefix: Seq<u8>,
    mode: nat,
    size: nat,
    typeflag: u8,
    link: Seq<u8>,
)
    requires
        suffix.len() <= 100,
        prefix.len() <= 155,
        link.len() <= 100,
        mode < 0x20_0000,
        size < 0x2_0000_0000,
    ensures
        ({
            let h = header_bytes(suffix, prefix, mode, size, typeflag, link);
            let front = header_front(suffix, mode, size);
            let back = header_back(prefix, typeflag, link);
            &&& h.len() == 512
            &&& front.len() == 148
            &&& back.len() == 356
            &&& h.subrange(0, 100) == padded(suffix, 100)
            &&& h.subrange(100, 108) == octal_field(mode, 8)
            &&& h.subrange(108, 116) == octal_field(0, 8)
            &&& h.subrange(116, 124) == octal_field(0, 8)
            &&& h.subrange(124, 136) == octal_field(size, 12)
            &&& h.subrange(136, 148) == octal_field(0, 12)
            &&& h.subrange(148, 156) == octal_field(byte_sum(front + blanks() + back), 8)
            &&& h[156] == typeflag
            &&& h.subrange(157, 257) == padded(link, 100)
            &&& h.subrange(257, 263) == seq![117u8, 115, 116, 97, 114, 0]
            &&& h.subrange(345, 500) == padded(prefix, 155)
            &&& h.subrange(0, 148) == front
            &&& h.subrange(156, 512) == back
        }),
{
    lemma_powers();
    assert(power8(11) == 0x2_0000_0000) by {
        reveal_with_fuel(power8, 12);
    }
    lemma_octal_len(mode, 7);
    lemma_octal_len(size, 11);
    lemma_octal_len(0, 7);
    lemma_octal_len(0, 11);
    law_field_holds_number(mode, 8);
    law_field_holds_number(size, 12);
    law_field_holds_number(0, 8);
    law_field_holds_number(0, 12);
    let front = header_front(suffix, mode, size);
    let back = header_back(prefix, typeflag, link);
    assert(front.len() == 148);
    assert(back.len() == 356);
    let sum = byte_sum(front + blanks() + back);
    lemma_sum_bound(front + blanks() + back);
    lemma_octal_len(sum, 7);
    law_field_holds_number(sum, 8);
    let h = header_bytes(suffix, prefix, mode, size, typeflag, link);
    assert(h.len() == 512);
    assert(h.subrange(0, 148) =~= front);
    assert(h.subrange(156, 512) =~= back);
    assert(h.subrange(148, 156) =~= octal_field(sum, 8));
    assert(h.subrange(0, 100) =~= padded(suffix, 100));
    assert(h.subrange(100, 108) =~= octal_field(mode, 8));
    assert(h.subrange(108, 116) =~= octal_field(0, 8));
    assert(h.subrange(116, 124) =~= octal_field(0, 8));
    assert(h.subrange(124, 136) =~= octal_field(size, 12));
    assert(h.subrange(136, 148) =~= octal_field(0, 12));
    assert(h.subrange(157, 257) =~= padded(link, 100));
    assert(h.subrange(257, 263) =~= seq![117u8, 115, 116, 97, 114, 0]);
    assert(h.subrange(345, 500) =~= padded(prefix, 155));
}

/// Whether bytes hold others at a place, with zeros behind them up to the given length.
pub open spec fn holds_text(h: Seq<u8>, at: int, text: Seq<u8>, room: int) -> bool {
    &&& text.len() <= room
    &&& h.subrange(at, at + text.len()) == text
    &&& forall|i: int| at + text.len() <= i < at + room ==> #[trigger] h[i] == 0
}

/// What a header says, read back from its places: the name, which is parted where it is long, the
/// mode and the size in octal digits, no owner and no time, what kind of member it is, where a link
/// leads, and the sum of its bytes with the sum's own place taken as blanks.
pub proof fn law_header_read_back(
    name: Seq<char>,
    mode: nat,
    size: nat,
    typeflag: u8,
    link: Seq<char>,
)
    requires
        mode < 0x20_0000,
        size < 0x2_0000_0000,
        header_of(name, mode, size, typeflag, link) is Ok,
    ensures
        ({
            let h = header_of(name, mode, size, typeflag, link)->Ok_0;
            let n = encode_utf8(name);
            &&& h.len() == 512
            &&& n.len() <= 100 ==> holds_text(h, 0, n, 100) && holds_text(h, 345, Seq::empty(), 155)
            &&& n.len() > 100 ==> exists|k: int|
                0 <= k < n.len() && n[k] == 0x2f && holds_text(h, 345, #[trigger] n.take(k), 155)
                    && holds_text(h, 0, n.skip(k + 1), 100)
            &&& octal_value(h.subrange(100, 107)) == mode
            &&& octal_value(h.subrange(108, 115)) == 0
            &&& octal_value(h.subrange(116, 123)) == 0
            &&& octal_value(h.subrange(124, 135)) == size
            &&& octal_value(h.subrange(136, 147)) == 0
            &&& octal_value(h.subrange(148, 155)) == byte_sum(
                h.subrange(0, 148) + seq![0x20u8, 0x20, 0x20, 0x20, 0x20, 0x20, 0x20, 0x20]
                    + h.subrange(156, 512),
            )
            &&& h[156] == typeflag
            &&& holds_text(h, 157, encode_utf8(link), 100)
            &&& h.subrange(257, 262) == seq![0x75u8, 0x73, 0x74, 0x61, 0x72]
        }),
{
    let b = encode_utf8(name);
    let parts = name_parts(b)->Some_0;
    law_name_parts(b);
    let l = encode_utf8(link);
    lemma_header_places(parts.0, parts.1, mode, size, typeflag, l);
    let h = header_of(name, mode, size, typeflag, link)->Ok_0;
    lemma_powers();
    assert(power8(11) == 0x2_0000_0000) by {
        reveal_with_fuel(power8, 12);
    }
    lemma_octal_len(mode, 7);
    lemma_octal_len(size, 11);
    lemma_octal_len(0, 7);
    lemma_octal_len(0, 11);
    law_field_holds_number(mode, 8);
    law_field_holds_number(size, 12);
    law_field_holds_number(0, 8);
    law_field_holds_number(0, 12);
    assert(h.subrange(100, 107) =~= octal_field(mode, 8).drop_last());
    assert(h.subrange(108, 115) =~= octal_field(0, 8).drop_last());
    assert(h.subrange(116, 123) =~= octal_field(0, 8).drop_last());
    assert(h.subrange(124, 135) =~= octal_field(size, 12).drop_last());
    assert(h.subrange(136, 147) =~= octal_field(0, 12).drop_last());
    let front = header_front(parts.0, mode, size);
    let back = header_back(parts.1, typeflag, l);
    let all = front + blanks() + back;
    lemma_sum_bound(all);
    lemma_octal_len(byte_sum(all), 7);
    law_field_holds_number(byte_sum(all), 8);
    assert(h.subrange(148, 155) =~= octal_field(byte_sum(all), 8).drop_last());
    assert(h.subrange(257, 262) =~= seq![0x75u8, 0x73, 0x74, 0x61, 0x72]) by {
        let m = h.subrange(257, 263);
        assert forall|i: int| 0 <= i < 5 implies h.subrange(257, 262)[i] == m[i] by {}
    }
    lemma_holds_padded(h, 0, parts.0, 100);
    lemma_holds_padded(h, 157, l, 100);
    lemma_holds_padded(h, 345, parts.1, 155);
    if b.len() > 100 {
        let k = parts.1.len() as int;
        assert(b[k] == 0x2f) by {
            assert((parts.1 + seq![47u8] + parts.0)[k] == 47u8);
        }
        assert(b.take(k) =~= parts.1);
        assert(b.skip(k + 1) =~= parts.0);
    }
}

proof fn lemma_holds_padded(h: Seq<u8>, at: int, text: Seq<u8>, room: int)
    requires
        0 <= at,
        at + room <= h.len(),
        text.len() <= room,
        h.subrange(at, at + room) == padded(text, room as nat),
    ensures
        holds_text(h, at, text, room),
{
    let p = padded(text, room as nat);
    assert forall|i: int| at <= i < at + room implies h[i] == p[i - at] by {
        assert(h.subrange(at, at + room)[i - at] == h[i]);
    }
    assert(h.subrange(at, at + text.len()) =~= text);
    assert forall|i: int| at + text.len() <= i < at + room implies #[trigger] h[i] == 0 by {
        assert(p[i - at] == 0);
    }
}

/// What a file is in an archive: a regular file its header with its length, its content, and zeros up
/// to a full block; a directory a header whose name ends with a slash; a link a header with where it
/// leads; and nothing else is there.
pub proof fn law_member_read_back(name: Seq<char>, s: TarSource)
    requires
        member_of(name, s) is Ok,
        s.kind == FileKind::File ==> s.len < 0x2_0000_0000 && s.content@.len() == s.len,
    ensures
        ({
            let b = member_of(name, s)->Ok_0;
            &&& s.kind == FileKind::File ==> {
                &&& b.len() % 512 == 0
                &&& 512 + s.len <= b.len() < 1024 + s.len
                &&& header_of(name, (s.mode & 0xfff) as nat, s.len as nat, 0x30, Seq::empty())
                    == Ok::<Seq<u8>, Seq<char>>(b.take(512))
                &&& b.subrange(512, 512 + s.len) == s.content@
                &&& forall|i: int| 512 + s.len <= i < b.len() ==> #[trigger] b[i] == 0
            }
            &&& s.kind == FileKind::Directory ==> header_of(
                if name.len() > 0 && name.last() == '/' {
                    name
                } else {
                    name.push('/')
                },
                (s.mode & 0xfff) as nat,
                0,
                0x35,
                Seq::empty(),
            ) == Ok::<Seq<u8>, Seq<char>>(b)
            &&& s.kind == FileKind::Symlink ==> header_of(
                name,
                (s.mode & 0xfff) as nat,
                0,
                0x32,
                s.link@,
            ) == Ok::<Seq<u8>, Seq<char>>(b)
            &&& s.kind != FileKind::File && s.kind != FileKind::Directory && s.kind
                != FileKind::Symlink ==> b.len() == 0
        }),
{
    reveal_strlit("");
    assert(""@ =~= Seq::<char>::empty());
    let asked = s.mode;
    let mode = asked & 0xfff;
    assert(asked & 0xfff < 0x1000) by (bit_vector);
    if s.kind == FileKind::File {
        lemma_header_len(name, mode as nat, s.len as nat, 48, ""@);
        let h = header_of(name, mode as nat, s.len as nat, 48, ""@)->Ok_0;
        let b = member_of(name, s)->Ok_0;
        assert(b.take(512) =~= h);
        assert(b.subrange(512, 512 + s.len) =~= s.content@);
    }
}

/// What a change is in an archive: a deletion an empty file with the mark for it before its name, an
/// opaque directory an empty file of that mark in it, and anything else the file itself.
pub proof fn law_change_in_archive(e: diff::DiffView, source: Option<TarSource>)
    ensures
        e.kind == DiffKind::Deleted ==> change_member(e, source) == header_of(
            whiteout_name(e.path),
            0,
            0,
            0x30,
            Seq::empty(),
        ),
        e.kind == DiffKind::OpaqueDir ==> change_member(e, source) == header_of(
            opaque_name(e.path),
            0,
            0,
            0x30,
            Seq::empty(),
        ),
        (e.kind == DiffKind::Added || e.kind == DiffKind::Modified) && e.upper_path is Some
            && source is Some ==> change_member(e, source) == member_of(e.path, source->Some_0),
{
    reveal_strlit("");
    assert(""@ =~= Seq::<char>::empty());
}

/// The mark for a deletion stands before the last name of the path, in its directory.
pub proof fn law_whiteout_names(dir: Seq<char>, name: Seq<char>)
    requires
        !name.contains('/'),
    ensures
        whiteout_name(name) == ".wh."@ + name,
        whiteout_name(dir.push('/') + name) == dir + "/.wh."@ + name,
        opaque_name(dir) == (if dir.len() == 0 {
            ".wh..wh..opq"@
        } else {
            dir + "/"@ + ".wh..wh..opq"@
        }),
{
    name.index_of_last_ensures('/');

    let p = dir.push('/') + name;
    p.index_of_last_ensures('/');
    let d = dir.len() as int;
    assert(p[d] == '/');
    assert(p.contains('/'));
    let k = p.index_of_last('/')->Some_0;
    assert(k == d) by {
        if k > d {
            assert(p[k] == name[k - d - 1]);
        }
    }
    assert(p.take(k) =~= dir);
    assert(p.skip(k + 1) =~= name);
    reveal_strlit("/.wh..wh..opq");
    reveal_strlit(".wh..wh..opq");
    reveal_strlit("/");
    assert(dir + "/.wh..wh..opq"@ =~= dir + "/"@ + ".wh..wh..opq"@);
}

/// An archive is its members one after the other, in the order of the changes.
pub proof fn law_members_in_order(
    es: Seq<diff::DiffView>,
    sources: Seq<Option<TarSource>>,
    e: diff::DiffView,
    s: Option<TarSource>,
)
    requires
        sources.len() == es.len(),
    ensures
        members(es.push(e), sources.push(s)) == (match (members(es, sources), change_member(e, s)) {
            (Ok(a), Ok(b)) => Ok::<Seq<u8>, Seq<char>>(a + b),
            (Ok(_), Err(f)) => Err(f),
            (Err(f), _) => Err(f),
        }),
        members(Seq::empty(), sources) == Ok::<Seq<u8>, Seq<char>>(Seq::empty()),
{
    let n = es.push(e);
    assert(n.drop_last() =~= es);
    assert(sources.push(s)[n.len() - 1] == s);
    lemma_members_same(es, sources, sources.push(s));
}

proof fn lemma_members_same(
    es: Seq<diff::DiffView>,
    a: Seq<Option<TarSource>>,
    b: Seq<Option<TarSource>>,
)
    requires
        a.len() >= es.len(),
        b.len() >= es.len(),
        forall|i: int| 0 <= i < es.len() ==> a[i] == b[i],
    ensures
        members(es, a) == members(es, b),
    decreases es.len(),
{
    if es.len() > 0 {
        lemma_members_same(es.drop_last(), a, b);
    }
}

} // verus!
