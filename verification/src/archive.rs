//! The archive format that packs a file or a directory tree into one byte
//! string, and its decoding, which reads the archive from its end.
//!
//! A file is stored as its contents, a newline, its name, a newline and the
//! big-endian 64-bit count of the bytes from the start of the contents to the
//! second newline included. A directory is stored as the archives of its
//! entries one after the other, then a newline, its name, a newline, the
//! big-endian 64-bit number of entries, and a final newline.
//!
//! Decoding reads from the end: a directory's trailer gives its name and the
//! number of its entries, which are decoded inside it; what stands before
//! them belongs to the enclosing directory.

use vstd::prelude::*;
use vstd::slice::slice_subrange;
use vstd::string::StringSliceAdditionalSpecFns;
use crate::error::{CliError, CliErrorView};
use crate::text::{string_from_utf8_lossy, utf8_lossy};

verus! {

/// The byte that separates the fields of the archive.
pub const NEWLINE: u8 = 10;

/// `256` to the power `k`.
pub open spec fn pow256(k: nat) -> nat
    decreases k,
{
    if k == 0 {
        1
    } else {
        256 * pow256((k - 1) as nat)
    }
}

/// The `k` low bytes of `n`, most significant first.
pub open spec fn be_digits(n: nat, k: nat) -> Seq<u8>
    decreases k,
{
    if k == 0 {
        Seq::empty()
    } else {
        be_digits(n / 256, (k - 1) as nat).push((n % 256) as u8)
    }
}

/// The big-endian 64-bit encoding of `n`.
pub open spec fn be_bytes(n: nat) -> Seq<u8> {
    be_digits(n, 8)
}

/// The number that a big-endian byte string denotes.
pub open spec fn be_value(b: Seq<u8>) -> nat
    decreases b.len(),
{
    if b.len() == 0 {
        0
    } else {
        be_value(b.drop_last()) * 256 + b.last() as nat
    }
}

/// The `k` low bytes of a number are `k` bytes.
pub proof fn lemma_be_digits_len(n: nat, k: nat)
    ensures
        be_digits(n, k).len() == k,
    decreases k,
{
    if k > 0 {
        lemma_be_digits_len(n / 256, (k - 1) as nat);
    }
}

/// Decoding the `k` low bytes of a number below `256^k` gives it back.
pub proof fn lemma_be_roundtrip(n: nat, k: nat)
    requires
        n < pow256(k),
    ensures
        be_value(be_digits(n, k)) == n,
    decreases k,
{
    if k > 0 {
        let p = pow256((k - 1) as nat);
        assert(n / 256 < p) by (nonlinear_arith)
            requires
                n < 256 * p,
        ;
        lemma_be_roundtrip(n / 256, (k - 1) as nat);
        assert(be_digits(n, k).drop_last() =~= be_digits(n / 256, (k - 1) as nat));
    }
}

/// A big-endian byte string denotes a number below `256^len`.
pub proof fn lemma_be_value_bound(b: Seq<u8>)
    ensures
        be_value(b) < pow256(b.len()),
    decreases b.len(),
{
    if b.len() > 0 {
        lemma_be_value_bound(b.drop_last());
    }
}

/// A file or a directory tree, with names and contents as bytes.
pub enum Entry {
    /// A file: its name and its contents.
    File(Seq<u8>, Seq<u8>),
    /// A directory: its name and its entries.
    Dir(Seq<u8>, Seq<Entry>),
}

/// The archive of a file named `name` with contents `data`.
pub open spec fn file_block(name: Seq<u8>, data: Seq<u8>) -> Seq<u8> {
    data + seq![NEWLINE] + name + seq![NEWLINE] + be_bytes((data.len() + name.len() + 2) as nat)
}

/// What follows the archives of the `count` entries of a directory named `name`.
pub open spec fn dir_trailer(name: Seq<u8>, count: nat) -> Seq<u8> {
    seq![NEWLINE] + name + seq![NEWLINE] + be_bytes(count) + seq![NEWLINE]
}

/// The concatenation of byte strings.
pub open spec fn concat(parts: Seq<Seq<u8>>) -> Seq<u8>
    decreases parts.len(),
{
    if parts.len() == 0 {
        Seq::empty()
    } else {
        concat(parts.drop_last()) + parts.last()
    }
}

/// The archive of an entry.
pub open spec fn encode(e: Entry) -> Seq<u8>
    decreases e, 1int,
{
    match e {
        Entry::File(name, data) => file_block(name, data),
        Entry::Dir(name, children) => encode_all(children) + dir_trailer(name, children.len()),
    }
}

/// The archives of a list of entries, one after the other.
pub open spec fn encode_all(es: Seq<Entry>) -> Seq<u8>
    decreases es, 0int,
{
    if es.len() == 0 {
        Seq::empty()
    } else {
        encode_all(es.subrange(0, es.len() - 1)) + encode(es[es.len() - 1])
    }
}

/// One operation on the file system: a path is a list of names below the
/// directory where decoding starts.
pub enum WriteOp {
    CreateDir(Seq<Seq<u8>>),
    WriteFile(Seq<Seq<u8>>, Seq<u8>),
}

/// The operations that recreate an entry inside the directory `dir`.
pub open spec fn entry_ops(e: Entry, dir: Seq<Seq<u8>>) -> Seq<WriteOp>
    decreases e, 1int,
{
    match e {
        Entry::File(name, data) => seq![WriteOp::WriteFile(dir.push(name), data)],
        Entry::Dir(name, children) => seq![WriteOp::CreateDir(dir.push(name))] + children_ops(
            children,
            dir.push(name),
        ),
    }
}

/// The operations that recreate a list of entries inside `dir`, from the
/// last entry to the first.
pub open spec fn children_ops(es: Seq<Entry>, dir: Seq<Seq<u8>>) -> Seq<WriteOp>
    decreases es, 0int,
{
    if es.len() == 0 {
        Seq::empty()
    } else {
        entry_ops(es[es.len() - 1], dir) + children_ops(es.subrange(0, es.len() - 1), dir)
    }
}

/// A name that the archive can hold: it has no newline.
pub open spec fn name_ok(name: Seq<u8>) -> bool {
    !name.contains(NEWLINE)
}

/// An entry whose archive decodes back to it. Names hold no newline; the
/// recorded length of a file fits in 64 bits and its last byte is no
/// newline (such a length would read as the end of a directory); the number
/// of entries of a directory fits in 64 bits.
pub open spec fn entry_wf(e: Entry) -> bool
    decreases e, 1int,
{
    match e {
        Entry::File(name, data) => {
            &&& name_ok(name)
            &&& data.len() + name.len() + 2 < pow256(8)
            &&& (data.len() + name.len() + 2) % 256 != NEWLINE as int
        },
        Entry::Dir(name, children) => {
            &&& name_ok(name)
            &&& children.len() < pow256(8)
            &&& all_wf(children)
        },
    }
}

/// Every entry of the list is well formed.
pub open spec fn all_wf(es: Seq<Entry>) -> bool
    decreases es, 0int,
{
    if es.len() == 0 {
        true
    } else {
        all_wf(es.subrange(0, es.len() - 1)) && entry_wf(es[es.len() - 1])
    }
}

/// The position of the last newline at or before `i`, or `-1`.
pub open spec fn last_newline(d: Seq<u8>, i: int) -> int
    decreases i + 1,
{
    if i < 0 {
        -1
    } else if d[i] == NEWLINE {
        i
    } else {
        last_newline(d, i - 1)
    }
}

/// What one step of decoding makes of an archive: the last entry, read from
/// the end of the bytes.
pub enum DecodedStep {
    /// A directory named `name` with `count` entries, whose archives end
    /// where the bytes before `rest` end.
    Dir { name: Seq<u8>, count: nat, rest: nat },
    /// A file named `name` whose contents are the bytes from `start` to `end`;
    /// the entries before it are the bytes before `start`.
    File { name: Seq<u8>, start: nat, end: nat },
    /// The bytes are no archive.
    Failed(CliErrorView),
    /// Decoding stops on an index out of range or an arithmetic underflow.
    Aborted,
}

/// One step of decoding: the last byte tells a directory (a newline) from a
/// file; before it stand the eight bytes of a number and a newline; the name
/// runs back to the previous newline. For a file the number is its recorded
/// length, which places the start of its contents; for a directory it is the
/// number of its entries.
pub open spec fn decode_step_spec(d: Seq<u8>) -> DecodedStep {
    if d.len() == 0 {
        DecodedStep::Aborted
    } else {
        let last = d.len() - 1;
        let is_dir = d[last] == NEWLINE;
        if is_dir && last == 0 {
            DecodedStep::Aborted
        } else {
            let p = if is_dir { last - 1 } else { last };
            if p < 7 {
                DecodedStep::Failed(CliErrorView::WrongFileFormat)
            } else if p == 7 {
                DecodedStep::Aborted
            } else {
                let num = be_value(d.subrange(p - 7, p + 1));
                let q = p - 8;
                if d[q] != NEWLINE {
                    DecodedStep::Failed(CliErrorView::WrongFileFormat)
                } else if q == 0 {
                    DecodedStep::Aborted
                } else {
                    let j = last_newline(d, q - 1);
                    if j < 0 {
                        DecodedStep::Aborted
                    } else if is_dir {
                        DecodedStep::Dir { name: d.subrange(j + 1, q), count: num, rest: j as nat }
                    } else if num == 0 {
                        DecodedStep::Failed(CliErrorView::EmptyFileAndName)
                    } else if num > q + 1 || q + 1 - num > j {
                        DecodedStep::Aborted
                    } else {
                        DecodedStep::File {
                            name: d.subrange(j + 1, q),
                            start: (q + 1 - num) as nat,
                            end: j as nat,
                        }
                    }
                }
            }
        }
    }
}

/// The last newline at or before `i` lies between `-1` and `i`, and is a newline.
pub proof fn lemma_last_newline_bound(d: Seq<u8>, i: int)
    requires
        -1 <= i < d.len(),
    ensures
        -1 <= last_newline(d, i),
        last_newline(d, i) <= i,
        last_newline(d, i) >= 0 ==> d[last_newline(d, i)] == NEWLINE,
    decreases i + 1,
{
    if i < 0 {
        assert(last_newline(d, i) == -1);
    } else if d[i] == NEWLINE {
        assert(last_newline(d, i) == i);
    } else {
        lemma_last_newline_bound(d, i - 1);
        assert(last_newline(d, i) == last_newline(d, i - 1));
    }
}

/// A decoding step that goes on leaves fewer bytes than it was given.
pub proof fn lemma_step_shrinks(d: Seq<u8>)
    ensures
        decode_step_spec(d) matches DecodedStep::Dir { rest, .. } ==> rest < d.len(),
        decode_step_spec(d) matches DecodedStep::File { start, end, .. } ==> start <= end < d.len(),
{
    if d.len() >= 10 {
        let last = d.len() - 1;
        let p = if d[last] == NEWLINE { last - 1 } else { last };
        lemma_last_newline_bound(d, p - 9);
    }
}

/// What decoding one entry, or a number of entries, makes of the bytes.
pub enum Decoded {
    /// The operations that recreate the entries, and the length of the bytes
    /// before them.
    Entries(Seq<WriteOp>, nat),
    /// The bytes are no archive.
    Failed(CliErrorView),
    /// Decoding stops on an index out of range or an arithmetic underflow.
    Aborted,
}

/// Decoding the last entry of `d` into the directory `dir`: a file is
/// written; a directory is created, and as many entries as it records are
/// decoded inside it from the bytes before its trailer.
pub open spec fn decode_entry(d: Seq<u8>, dir: Seq<Seq<u8>>) -> Decoded
    decreases d.len(), 0int, 0int,
{
    proof {
        lemma_step_shrinks(d);
    }
    match decode_step_spec(d) {
        DecodedStep::Aborted => Decoded::Aborted,
        DecodedStep::Failed(e) => Decoded::Failed(e),
        DecodedStep::File { name, start, end } => Decoded::Entries(
            seq![WriteOp::WriteFile(dir.push(name), d.subrange(start as int, end as int))],
            start,
        ),
        DecodedStep::Dir { name, count, rest } => match decode_entries(
            d.subrange(0, rest as int),
            dir.push(name),
            count as int,
        ) {
            Decoded::Entries(ops, r) => Decoded::Entries(
                seq![WriteOp::CreateDir(dir.push(name))] + ops,
                r,
            ),
            other => other,
        },
    }
}

/// Decoding the last `count` entries of `d` into `dir`, from the last to the
/// first. Running out of bytes before `count` entries is a wrong format. (An
/// entry always leaves fewer bytes than it was given, see
/// [`lemma_decode_shrinks`]; the test on it only makes the recursion finite
/// on its face.)
pub open spec fn decode_entries(d: Seq<u8>, dir: Seq<Seq<u8>>, count: int) -> Decoded
    decreases d.len(), 1int, count,
{
    if count <= 0 {
        Decoded::Entries(Seq::empty(), d.len())
    } else if d.len() == 0 {
        Decoded::Failed(CliErrorView::WrongFileFormat)
    } else {
        match decode_entry(d, dir) {
            Decoded::Entries(ops, r) => if r < d.len() {
                match decode_entries(d.subrange(0, r as int), dir, count - 1) {
                    Decoded::Entries(ops2, r2) => Decoded::Entries(ops + ops2, r2),
                    other => other,
                }
            } else {
                Decoded::Failed(CliErrorView::WrongFileFormat)
            },
            other => other,
        }
    }
}

/// An entry leaves fewer bytes than it was given, and entries no more.
pub proof fn lemma_decode_shrinks(d: Seq<u8>, dir: Seq<Seq<u8>>, count: int)
    ensures
        decode_entry(d, dir) matches Decoded::Entries(_, r) ==> r < d.len(),
        decode_entries(d, dir, count) matches Decoded::Entries(_, r) ==> r <= d.len(),
    decreases d.len(), count,
{
    lemma_step_shrinks(d);
    match decode_step_spec(d) {
        DecodedStep::Dir { name, count: c, rest } => {
            lemma_decode_shrinks(d.subrange(0, rest as int), dir.push(name), c as int);
        },
        _ => {},
    }
    if count > 0 && d.len() > 0 {
        match decode_entry(d, dir) {
            Decoded::Entries(_, r) => {
                if r < d.len() {
                    lemma_decode_shrinks(d.subrange(0, r as int), dir, count - 1);
                }
            },
            _ => {},
        }
    }
}

/// The outcome of decoding a whole archive.
pub enum Replay {
    /// Decoding ends after these operations.
    Done(Seq<WriteOp>),
    /// The bytes are no archive.
    Failed(CliErrorView),
    /// Decoding stops on an index out of range or an underflow.
    Aborted,
}

/// Decoding an archive into the directory where decoding starts: its last
/// entry is decoded, then what stands before it, until nothing does.
pub open spec fn replay(d: Seq<u8>) -> Replay
    decreases d.len(),
{
    match decode_entry(d, Seq::empty()) {
        Decoded::Entries(ops, r) => if r == 0 {
            Replay::Done(ops)
        } else if r < d.len() {
            match replay(d.subrange(0, r as int)) {
                Replay::Done(ops2) => Replay::Done(ops + ops2),
                other => other,
            }
        } else {
            Replay::Failed(CliErrorView::WrongFileFormat)
        },
        Decoded::Failed(e) => Replay::Failed(e),
        Decoded::Aborted => Replay::Aborted,
    }
}

/// The last newline at or before `i` is `j` when no newline stands between them.
pub proof fn lemma_last_newline_at(d: Seq<u8>, j: int, i: int)
    requires
        0 <= j <= i < d.len(),
        d[j] == NEWLINE,
        forall|t: int| j < t <= i ==> d[t] != NEWLINE,
    ensures
        last_newline(d, i) == j,
    decreases i - j,
{
    if i > j {
        lemma_last_newline_at(d, j, i - 1);
    }
}

/// Decoding a file archive that follows any bytes `x` reads the file back.
pub proof fn lemma_step_file(x: Seq<u8>, name: Seq<u8>, data: Seq<u8>)
    requires
        name_ok(name),
        data.len() + name.len() + 2 < pow256(8),
        (data.len() + name.len() + 2) % 256 != NEWLINE as int,
    ensures
        decode_step_spec(x + file_block(name, data)) == (DecodedStep::File {
            name,
            start: x.len(),
            end: x.len() + data.len(),
        }),
{
    let num = (data.len() + name.len() + 2) as nat;
    let bb = be_bytes(num);
    lemma_be_digits_len(num, 8);
    lemma_be_roundtrip(num, 8);
    let d = x + file_block(name, data);
    let a: int = x.len() + data.len() as int;
    let q: int = a + name.len() + 1;
    assert(d.len() == q + 9);
    assert(bb[7] == (num % 256) as u8);
    assert(d[q + 8] == bb[7]);
    assert(d.subrange(q + 1, q + 9) =~= bb);
    assert(d[q] == NEWLINE);
    assert(d[a] == NEWLINE);
    assert forall|t: int| a < t <= q - 1 implies d[t] != NEWLINE by {
        assert(d[t] == name[t - a - 1]);
    }
    lemma_last_newline_at(d, a, q - 1);
    assert(d.subrange(a + 1, q) =~= name);
}

/// Decoding a directory trailer that follows any bytes `x` reads the
/// directory back, with `x` as its entries.
pub proof fn lemma_step_dir(x: Seq<u8>, name: Seq<u8>, count: nat)
    requires
        name_ok(name),
        count < pow256(8),
    ensures
        decode_step_spec(x + dir_trailer(name, count)) == (DecodedStep::Dir {
            name,
            count,
            rest: x.len(),
        }),
{
    let bb = be_bytes(count);
    lemma_be_digits_len(count, 8);
    lemma_be_roundtrip(count, 8);
    let d = x + dir_trailer(name, count);
    let a: int = x.len() as int;
    let q: int = a + name.len() + 1;
    assert(d.len() == q + 10);
    assert(d[q + 9] == NEWLINE);
    assert(d.subrange(q + 1, q + 9) =~= bb);
    assert(d[q] == NEWLINE);
    assert(d[a] == NEWLINE);
    assert forall|t: int| a < t <= q - 1 implies d[t] != NEWLINE by {
        assert(d[t] == name[t - a - 1]);
    }
    lemma_last_newline_at(d, a, q - 1);
    assert(d.subrange(a + 1, q) =~= name);
}

/// The archive of an entry is never empty.
pub proof fn lemma_encode_nonempty(e: Entry)
    ensures
        encode(e).len() >= 10,
{
    match e {
        Entry::File(name, data) => {
            lemma_be_digits_len((data.len() + name.len() + 2) as nat, 8);
        },
        Entry::Dir(name, children) => {
            lemma_be_digits_len(children.len(), 8);
        },
    }
}

/// Decoding the archive of a well-formed entry that follows any bytes `x`
/// recreates the entry inside `dir` and leaves `x`.
pub proof fn lemma_decode_entry(x: Seq<u8>, e: Entry, dir: Seq<Seq<u8>>)
    requires
        entry_wf(e),
    ensures
        decode_entry(x + encode(e), dir) == Decoded::Entries(entry_ops(e, dir), x.len()),
    decreases e, 1int,
{
    match e {
        Entry::File(name, data) => {
            assert(x + encode(e) == x + file_block(name, data));
            lemma_step_file(x, name, data);
            assert((x + encode(e)).subrange(x.len() as int, x.len() + data.len() as int) =~= data);
        },
        Entry::Dir(name, children) => {
            let body = x + encode_all(children);
            assert(x + encode(e) =~= body + dir_trailer(name, children.len()));
            lemma_step_dir(body, name, children.len());
            assert((x + encode(e)).subrange(0, body.len() as int) =~= body);
            lemma_decode_entries(x, children, dir.push(name));
        },
    }
}

/// Decoding the archives of a well-formed list of entries that follow any
/// bytes `x` recreates them inside `dir`, from the last to the first, and
/// leaves `x`.
pub proof fn lemma_decode_entries(x: Seq<u8>, es: Seq<Entry>, dir: Seq<Seq<u8>>)
    requires
        all_wf(es),
    ensures
        decode_entries(x + encode_all(es), dir, es.len() as int) == Decoded::Entries(
            children_ops(es, dir),
            x.len(),
        ),
    decreases es, 0int,
{
    if es.len() == 0 {
        assert(x + encode_all(es) =~= x);
    } else {
        let init = es.subrange(0, es.len() - 1);
        let last = es[es.len() - 1];
        let pre = x + encode_all(init);
        let d = x + encode_all(es);
        assert(d =~= pre + encode(last));
        assert(entry_wf(last));
        lemma_decode_entry(pre, last, dir);
        lemma_encode_nonempty(last);
        assert(d.subrange(0, pre.len() as int) =~= pre);
        lemma_decode_entries(x, init, dir);
        assert(children_ops(es, dir) == entry_ops(last, dir) + children_ops(init, dir));
    }
}

/// Decoding the archive of a well-formed entry recreates exactly that entry,
/// whatever its shape: its directories, empty ones too, are created and its
/// files are written with their contents under their names.
pub proof fn lemma_archive_roundtrip(e: Entry)
    requires
        entry_wf(e),
    ensures
        replay(encode(e)) == Replay::Done(entry_ops(e, Seq::empty())),
{
    lemma_decode_entry(Seq::empty(), e, Seq::empty());
    assert(Seq::<u8>::empty() + encode(e) =~= encode(e));
}

/// The archives of a list of entries, concatenated, are the archive of the list.
pub proof fn lemma_concat_encodes(es: Seq<Entry>, parts: Seq<Seq<u8>>)
    requires
        parts.len() == es.len(),
        forall|i: int| 0 <= i < es.len() ==> parts[i] == encode(es[i]),
    ensures
        concat(parts) == encode_all(es),
    decreases es.len(),
{
    if es.len() > 0 {
        let init = es.subrange(0, es.len() - 1);
        assert(forall|i: int| 0 <= i < init.len() ==> init[i] == es[i]);
        lemma_concat_encodes(init, parts.drop_last());
    }
}

/// What [`format_dir`] builds from the archives of a directory's entries is
/// the archive of the directory, and what [`format_file`] builds is the
/// archive of the file.
pub proof fn lemma_format_encodes(name: Seq<u8>, es: Seq<Entry>, parts: Seq<Seq<u8>>, data: Seq<u8>)
    requires
        parts.len() == es.len(),
        forall|i: int| 0 <= i < es.len() ==> parts[i] == encode(es[i]),
    ensures
        concat(parts) + dir_trailer(name, parts.len()) == encode(Entry::Dir(name, es)),
        file_block(name, data) == encode(Entry::File(name, data)),
{
    lemma_concat_encodes(es, parts);
}

/// Appends the bytes of `b` to `v`.
fn push_bytes(v: &mut Vec<u8>, b: &[u8])
    ensures
        final(v)@ == old(v)@ + b@,
{
    let mut i: usize = 0;
    while i < b.len()
        invariant
            i <= b@.len(),
            v@ == old(v)@ + b@.subrange(0, i as int),
        decreases b@.len() - i,
    {
        v.push(b[i]);
        i = i + 1;
        assert(v@ =~= old(v)@ + b@.subrange(0, i as int));
    }
    assert(b@.subrange(0, b@.len() as int) =~= b@);
}

/// Appends the `k` low bytes of `n` to `v`, most significant first.
fn push_be_digits(v: &mut Vec<u8>, n: u64, k: usize)
    ensures
        final(v)@ == old(v)@ + be_digits(n as nat, k as nat),
    decreases k,
{
    if k > 0 {
        push_be_digits(v, n / 256, k - 1);
        v.push((n % 256) as u8);
        assert(final(v)@ =~= old(v)@ + be_digits(n as nat, k as nat)) by {
            assert(be_digits(n as nat, k as nat) == be_digits((n / 256) as nat, (k - 1) as nat).push(
                (n % 256) as u8,
            ));
        }
    } else {
        assert(final(v)@ =~= old(v)@ + be_digits(n as nat, k as nat));
    }
}

/// Reads the big-endian number in the eight bytes of `b` from `at` on.
fn read_be_u64(b: &[u8], at: usize) -> (n: u64)
    requires
        at + 8 <= b@.len(),
    ensures
        n == be_value(b@.subrange(at as int, at + 8)),
{
    let mut n: u64 = 0;
    let mut i: usize = 0;
    while i < 8
        invariant
            i <= 8,
            at + 8 <= b@.len(),
            n == be_value(b@.subrange(at as int, at + i)),
        decreases 8 - i,
    {
        let ghost part = b@.subrange(at as int, at + i);
        proof {
            lemma_be_value_bound(part);
            assert(pow256(i as nat) <= pow256(7)) by {
                lemma_pow256_mono(i as nat, 7);
            }
            lemma_pow256_seven();
        }
        let blen = b.len();
        assert(at + i < blen);
        let byte = b[at + i];
        n = n * 256 + byte as u64;
        i = i + 1;
        assert(b@.subrange(at as int, at + i).drop_last() =~= part);
    }
    n
}

/// `256^7` is `2^56`.
pub proof fn lemma_pow256_seven()
    ensures
        pow256(7) == 0x100000000000000,
        pow256(8) == 0x10000000000000000,
{
    reveal_with_fuel(pow256, 9);
}

/// `256^i` grows with `i`.
pub proof fn lemma_pow256_mono(i: nat, j: nat)
    requires
        i <= j,
    ensures
        pow256(i) <= pow256(j),
    decreases j,
{
    if i < j {
        lemma_pow256_mono(i, (j - 1) as nat);
    }
}

/// Appends the archive of the file named `name` with contents `data` to
/// those contents and returns it.
pub fn format_file(name: &str, data: Vec<u8>) -> (r: Result<Vec<u8>, CliError>)
    ensures
        r matches Ok(v) && v@ == file_block(name.spec_bytes(), data@),
{
    let mut data = data;
    let ghost contents = data@;
    data.push(NEWLINE);
    push_bytes(&mut data, name.as_bytes());
    data.push(NEWLINE);
    let len = data.len() as u64;
    push_be_digits(&mut data, len, 8);
    assert(data@ =~= file_block(name.spec_bytes(), contents));
    Ok(data)
}

/// The view of a list of byte vectors.
pub open spec fn bytes_views(entries: Seq<Vec<u8>>) -> Seq<Seq<u8>> {
    entries.map_values(|e: Vec<u8>| e@)
}

/// The archive of a directory named `dir_name` whose entries have the
/// archives `entries`, in that order.
pub fn format_dir(dir_name: &str, entries: Vec<Vec<u8>>) -> (r: Vec<u8>)
    ensures
        r@ == concat(bytes_views(entries@)) + dir_trailer(dir_name.spec_bytes(), entries@.len()),
{
    let mut v: Vec<u8> = Vec::new();
    let mut count: u64 = 0;
    let mut i: usize = 0;
    while i < entries.len()
        invariant
            i <= entries@.len(),
            count == i,
            v@ == concat(bytes_views(entries@.subrange(0, i as int))),
        decreases entries@.len() - i,
    {
        push_bytes(&mut v, entries[i].as_slice());
        assert(bytes_views(entries@.subrange(0, i + 1)).drop_last() =~= bytes_views(
            entries@.subrange(0, i as int),
        ));
        i = i + 1;
        count = count + 1;
    }
    assert(entries@.subrange(0, i as int) =~= entries@);
    let ghost body = v@;
    v.push(NEWLINE);
    push_bytes(&mut v, dir_name.as_bytes());
    v.push(NEWLINE);
    push_be_digits(&mut v, count, 8);
    v.push(NEWLINE);
    assert(v@ =~= body + dir_trailer(dir_name.spec_bytes(), entries@.len()));
    v
}

/// One step of decoding, as the tool takes it: the last entry of an archive.
#[derive(Debug)]
pub enum Step {
    /// Create the directory `name` and decode its `count` entries inside it,
    /// from the bytes before `rest`.
    Dir { name: String, count: u64, rest: usize },
    /// Write the bytes from `start` to `end` to the file `name`, then decode
    /// the bytes before `start`, unless `start` is zero.
    File { name: String, start: usize, end: usize },
}

/// `r` is what the tool makes of the decoding step `s`; names are read as
/// UTF-8 with invalid sequences replaced.
pub open spec fn step_matches(r: Result<Step, CliError>, s: DecodedStep) -> bool {
    match s {
        DecodedStep::Dir { name, count, rest } => r matches Ok(
            Step::Dir { name: n, count: c, rest: k },
        ) && n@ == utf8_lossy(name) && c == count && k == rest,
        DecodedStep::File { name, start, end } => r matches Ok(
            Step::File { name: n, start: a, end: b },
        ) && n@ == utf8_lossy(name) && a == start && b == end,
        DecodedStep::Failed(e) => r matches Err(x) && x@ == e,
        DecodedStep::Aborted => false,
    }
}

/// One step of decoding `data`, or `None` where decoding stops on an index
/// out of range or an arithmetic underflow.
pub fn try_decode_step(data: &[u8]) -> (r: Option<Result<Step, CliError>>)
    ensures
        match r {
            None => decode_step_spec(data@) is Aborted,
            Some(x) => step_matches(x, decode_step_spec(data@)),
        },
{
    let ghost d = data@;
    let len = data.len();
    if len == 0 {
        return None;
    }
    let mut pos = len - 1;
    let mut is_dir = false;
    if data[pos] == NEWLINE {
        is_dir = true;
        if pos == 0 {
            return None;
        }
        pos = pos - 1;
    }
    if pos < 7 {
        return Some(Err(CliError::WrongFileFormat));
    }
    if pos == 7 {
        return None;
    }
    let num = read_be_u64(data, pos - 7);
    assert(num == be_value(d.subrange(pos - 7, pos + 1)));
    pos = pos - 8;
    if data[pos] != NEWLINE {
        return Some(Err(CliError::WrongFileFormat));
    }
    let end = pos;
    if end == 0 {
        return None;
    }
    pos = end - 1;
    let mut found = data[pos] == NEWLINE;
    #[verifier::loop_isolation(false)]
    while !found
        invariant
            0 <= pos < end < len,
            len == d.len(),
            data@ == d,
            found == (d[pos as int] == NEWLINE),
            last_newline(d, end - 1) == last_newline(d, pos as int),
        decreases pos,
    {
        if pos == 0 {
            assert(last_newline(d, -1) == -1);
            assert(last_newline(d, 0) == -1);
            return None;
        }
        pos = pos - 1;
        found = data[pos] == NEWLINE;
    }
    assert(last_newline(d, pos as int) == pos);
    let name = string_from_utf8_lossy(slice_subrange(data, pos + 1, end));
    if is_dir {
        return Some(Ok(Step::Dir { name, count: num, rest: pos }));
    }
    if num == 0 {
        return Some(Err(CliError::EmptyFileAndName));
    }
    if num > end as u64 + 1 {
        return None;
    }
    let start = (end as u64 + 1 - num) as usize;
    if start > pos {
        return None;
    }
    Some(Ok(Step::File { name, start, end: pos }))
}

/// One step of decoding `data`: the last entry of the archive, or the error
/// that it holds. Inputs on which decoding stops on an index out of range or
/// an underflow are left out.
pub fn decode_step(data: &[u8]) -> (r: Result<Step, CliError>)
    requires
        !(decode_step_spec(data@) is Aborted),
    ensures
        step_matches(r, decode_step_spec(data@)),
{
    try_decode_step(data).unwrap()
}

/// An operation that decoding an archive asks for. A path is a list of
/// names below the directory where decoding starts; the contents of a file
/// are the bytes of the archive from `start` to `end`.
#[derive(Debug)]
pub enum ArchiveOp {
    /// Create the directory at `path`.
    CreateDir { path: Vec<String> },
    /// Write the bytes from `start` to `end` to the file at `path`.
    WriteFile { path: Vec<String>, start: usize, end: usize },
}

/// `p` is the path `q` with its names read as UTF-8, invalid sequences replaced.
pub open spec fn path_matches(p: Seq<String>, q: Seq<Seq<u8>>) -> bool {
    &&& p.len() == q.len()
    &&& forall|i: int| 0 <= i < p.len() ==> #[trigger] p[i]@ == utf8_lossy(q[i])
}

/// `o` is the operation `w` on an archive `data`.
pub open spec fn op_matches(o: ArchiveOp, w: WriteOp, data: Seq<u8>) -> bool {
    match w {
        WriteOp::CreateDir(q) => o matches ArchiveOp::CreateDir { path } && path_matches(path@, q),
        WriteOp::WriteFile(q, bytes) => o matches ArchiveOp::WriteFile { path, start, end }
            && path_matches(path@, q) && start <= end <= data.len() && data.subrange(
            start as int,
            end as int,
        ) == bytes,
    }
}

/// The operations `os` are the operations `ws` on an archive `data`, in order.
pub open spec fn ops_match(os: Seq<ArchiveOp>, ws: Seq<WriteOp>, data: Seq<u8>) -> bool {
    &&& os.len() == ws.len()
    &&& forall|i: int| 0 <= i < os.len() ==> op_matches(#[trigger] os[i], ws[i], data)
}

/// `after` is `before` followed by the operations `ws` on an archive `data`.
pub open spec fn appended(
    before: Seq<ArchiveOp>,
    after: Seq<ArchiveOp>,
    ws: Seq<WriteOp>,
    data: Seq<u8>,
) -> bool {
    &&& after.len() == before.len() + ws.len()
    &&& after.subrange(0, before.len() as int) == before
    &&& ops_match(after.subrange(before.len() as int, after.len() as int), ws, data)
}

/// Appending in two steps appends the two lists of operations.
proof fn lemma_appended_trans(
    a: Seq<ArchiveOp>,
    b: Seq<ArchiveOp>,
    c: Seq<ArchiveOp>,
    w1: Seq<WriteOp>,
    w2: Seq<WriteOp>,
    data: Seq<u8>,
)
    requires
        appended(a, b, w1, data),
        appended(b, c, w2, data),
    ensures
        appended(a, c, w1 + w2, data),
{
    assert(c.subrange(0, a.len() as int) =~= a) by {
        assert(c.subrange(0, a.len() as int) =~= b.subrange(0, a.len() as int)) by {
            assert forall|i: int| 0 <= i < a.len() implies c[i] == b[i] by {
                assert(c.subrange(0, b.len() as int)[i] == b[i]);
            }
        }
    }
    let tail = c.subrange(a.len() as int, c.len() as int);
    let w = w1 + w2;
    assert forall|i: int| 0 <= i < tail.len() implies op_matches(#[trigger] tail[i], w[i], data) by {
        if i < w1.len() {
            assert(tail[i] == c[a.len() + i]);
            assert(c[a.len() + i] == b[a.len() + i]) by {
                assert(c.subrange(0, b.len() as int)[a.len() + i] == b[a.len() + i]);
            }
            assert(b.subrange(a.len() as int, b.len() as int)[i] == b[a.len() + i]);
        } else {
            let k = i - w1.len();
            assert(tail[i] == c[b.len() + k]);
            assert(c.subrange(b.len() as int, c.len() as int)[k] == c[b.len() + k]);
        }
    }
}

/// A copy of a path.
fn copy_path(p: &Vec<String>) -> (r: Vec<String>)
    ensures
        r@ == p@,
{
    let mut r: Vec<String> = Vec::new();
    let mut i: usize = 0;
    while i < p.len()
        invariant
            i <= p@.len(),
            r@ == p@.subrange(0, i as int),
        decreases p@.len() - i,
    {
        r.push(p[i].clone());
        i = i + 1;
        assert(r@ =~= p@.subrange(0, i as int));
    }
    assert(p@.subrange(0, i as int) =~= p@);
    r
}

/// The path `dir` followed by `name`.
fn extend_path(dir: &Vec<String>, name: String) -> (r: Vec<String>)
    ensures
        r@ == dir@.push(name),
{
    let mut r = copy_path(dir);
    r.push(name);
    r
}

/// Decodes the last entry of `data[..len]` into `dir`, appending its operations.
fn decode_entry_into(
    data: &[u8],
    len: usize,
    dir: &Vec<String>,
    Ghost(sdir): Ghost<Seq<Seq<u8>>>,
    ops: &mut Vec<ArchiveOp>,
) -> (r: Option<Result<usize, CliError>>)
    requires
        len <= data@.len(),
        path_matches(dir@, sdir),
    ensures
        match decode_entry(data@.subrange(0, len as int), sdir) {
            Decoded::Entries(ws, rest) => r matches Some(Ok(k)) && k == rest && appended(
                old(ops)@,
                final(ops)@,
                ws,
                data@,
            ),
            Decoded::Failed(e) => r matches Some(Err(x)) && x@ == e,
            Decoded::Aborted => r is None,
        },
    decreases len, 0int, 0int,
{
    let ghost d = data@.subrange(0, len as int);
    let prefix = slice_subrange(data, 0, len);
    proof {
        lemma_step_shrinks(d);
    }
    let ghost before = ops@;
    match try_decode_step(prefix) {
        None => None,
        Some(Err(e)) => Some(Err(e)),
        Some(Ok(Step::File { name, start, end })) => {
            let ghost nb = decode_step_spec(d)->File_name;
            let path = extend_path(dir, name);
            ops.push(ArchiveOp::WriteFile { path, start, end });
            proof {
                let w = WriteOp::WriteFile(sdir.push(nb), d.subrange(start as int, end as int));
                assert(d.subrange(start as int, end as int) =~= data@.subrange(start as int, end as int));
                assert(path_matches(path@, sdir.push(nb))) by {
                    assert forall|i: int| 0 <= i < path@.len() implies #[trigger] path@[i]@ == utf8_lossy(
                        sdir.push(nb)[i],
                    ) by {
                        if i < dir@.len() {
                            assert(path@[i] == dir@[i]);
                        }
                    }
                }
                assert(ops@.subrange(0, before.len() as int) =~= before);
                assert(ops@.subrange(before.len() as int, ops@.len() as int) =~= seq![ops@.last()]);
                assert(op_matches(ops@.last(), w, data@));
            }
            Some(Ok(start))
        },
        Some(Ok(Step::Dir { name, count, rest })) => {
            let ghost nb = decode_step_spec(d)->Dir_name;
            let path = extend_path(dir, name);
            proof {
                assert forall|i: int| 0 <= i < path@.len() implies #[trigger] path@[i]@ == utf8_lossy(
                    sdir.push(nb)[i],
                ) by {
                    if i < dir@.len() {
                        assert(path@[i] == dir@[i]);
                    }
                }
            }
            let op_path = copy_path(&path);
            ops.push(ArchiveOp::CreateDir { path: op_path });
            let ghost mid = ops@;
            proof {
                let w = WriteOp::CreateDir(sdir.push(nb));
                assert(mid.subrange(0, before.len() as int) =~= before);
                assert(mid.subrange(before.len() as int, mid.len() as int) =~= seq![mid.last()]);
                assert(op_matches(mid.last(), w, data@));
                assert(appended(before, mid, seq![w], data@));
                assert(d.subrange(0, rest as int) =~= data@.subrange(0, rest as int));
            }
            let r = decode_entries_into(data, rest, count, &path, Ghost(sdir.push(nb)), ops);
            proof {
                match decode_entries(data@.subrange(0, rest as int), sdir.push(nb), count as int) {
                    Decoded::Entries(ws, _) => {
                        lemma_appended_trans(
                            before,
                            mid,
                            ops@,
                            seq![WriteOp::CreateDir(sdir.push(nb))],
                            ws,
                            data@,
                        );
                    },
                    _ => {},
                }
            }
            r
        },
    }
}

/// Decodes the last `count` entries of `data[..len]` into `dir`, appending
/// their operations.
fn decode_entries_into(
    data: &[u8],
    len: usize,
    count: u64,
    dir: &Vec<String>,
    Ghost(sdir): Ghost<Seq<Seq<u8>>>,
    ops: &mut Vec<ArchiveOp>,
) -> (r: Option<Result<usize, CliError>>)
    requires
        len <= data@.len(),
        path_matches(dir@, sdir),
    ensures
        match decode_entries(data@.subrange(0, len as int), sdir, count as int) {
            Decoded::Entries(ws, rest) => r matches Some(Ok(k)) && k == rest && appended(
                old(ops)@,
                final(ops)@,
                ws,
                data@,
            ),
            Decoded::Failed(e) => r matches Some(Err(x)) && x@ == e,
            Decoded::Aborted => r is None,
        },
    decreases len, 1int, count,
{
    let ghost before = ops@;
    if count == 0 {
        assert(ops@.subrange(0, before.len() as int) =~= before);
        assert(ops@.subrange(before.len() as int, ops@.len() as int) =~= Seq::<ArchiveOp>::empty());
        return Some(Ok(len));
    }
    if len == 0 {
        return Some(Err(CliError::WrongFileFormat));
    }
    match decode_entry_into(data, len, dir, Ghost(sdir), ops) {
        Some(Ok(r)) => {
            if r < len {
                let ghost mid = ops@;
                let res = decode_entries_into(data, r, count - 1, dir, Ghost(sdir), ops);
                proof {
                    assert(data@.subrange(0, len as int).subrange(0, r as int) =~= data@.subrange(
                        0,
                        r as int,
                    ));
                    let ws1 = decode_entry(data@.subrange(0, len as int), sdir)->Entries_0;
                    match decode_entries(data@.subrange(0, r as int), sdir, count - 1) {
                        Decoded::Entries(ws2, _) => {
                            lemma_appended_trans(before, mid, ops@, ws1, ws2, data@);
                        },
                        _ => {},
                    }
                }
                res
            } else {
                Some(Err(CliError::WrongFileFormat))
            }
        },
        Some(Err(e)) => Some(Err(e)),
        None => None,
    }
}

/// Decodes `data[..len]` entry after entry into the directory where decoding
/// starts, appending the operations.
fn decode_from(data: &[u8], len: usize, ops: &mut Vec<ArchiveOp>) -> (r: Option<Result<(), CliError>>)
    requires
        len <= data@.len(),
    ensures
        match replay(data@.subrange(0, len as int)) {
            Replay::Done(ws) => r matches Some(Ok(())) && appended(old(ops)@, final(ops)@, ws, data@),
            Replay::Failed(e) => r matches Some(Err(x)) && x@ == e,
            Replay::Aborted => r is None,
        },
    decreases len,
{
    let root: Vec<String> = Vec::new();
    let ghost before = ops@;
    match decode_entry_into(data, len, &root, Ghost(Seq::empty()), ops) {
        Some(Ok(r)) => {
            if r == 0 {
                Some(Ok(()))
            } else if r < len {
                let ghost mid = ops@;
                let res = decode_from(data, r, ops);
                proof {
                    assert(data@.subrange(0, len as int).subrange(0, r as int) =~= data@.subrange(
                        0,
                        r as int,
                    ));
                    let ws1 = decode_entry(data@.subrange(0, len as int), Seq::empty())->Entries_0;
                    match replay(data@.subrange(0, r as int)) {
                        Replay::Done(ws2) => {
                            lemma_appended_trans(before, mid, ops@, ws1, ws2, data@);
                        },
                        _ => {},
                    }
                }
                res
            } else {
                Some(Err(CliError::WrongFileFormat))
            }
        },
        Some(Err(e)) => Some(Err(e)),
        None => None,
    }
}

/// The operations that recreate what the archive `data` holds, or the error
/// that it holds; `None` where decoding stops on an index out of range or an
/// arithmetic underflow.
pub fn try_decode_archive(data: &[u8]) -> (r: Option<Result<Vec<ArchiveOp>, CliError>>)
    ensures
        match replay(data@) {
            Replay::Done(ws) => r matches Some(Ok(ops)) && ops_match(ops@, ws, data@),
            Replay::Failed(e) => r matches Some(Err(x)) && x@ == e,
            Replay::Aborted => r is None,
        },
{
    let mut ops: Vec<ArchiveOp> = Vec::new();
    assert(data@.subrange(0, data@.len() as int) =~= data@);
    match decode_from(data, data.len(), &mut ops) {
        Some(Ok(())) => {
            assert(ops@.subrange(0, 0) =~= Seq::<ArchiveOp>::empty());
            assert(ops@.subrange(0, ops@.len() as int) =~= ops@);
            Some(Ok(ops))
        },
        Some(Err(e)) => Some(Err(e)),
        None => None,
    }
}

/// The operations that recreate what the archive `data` holds, or the error
/// that it holds. Archives on which decoding stops on an index out of range
/// or an underflow are left out.
pub fn decode_archive(data: &[u8]) -> (r: Result<Vec<ArchiveOp>, CliError>)
    requires
        !(replay(data@) is Aborted),
    ensures
        match replay(data@) {
            Replay::Done(ws) => r matches Ok(ops) && ops_match(ops@, ws, data@),
            Replay::Failed(e) => r matches Err(x) && x@ == e,
            Replay::Aborted => false,
        },
{
    try_decode_archive(data).unwrap()
}

} // verus!
