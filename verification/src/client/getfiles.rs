//! Reading the file listing a server advertises.
use vstd::prelude::*;
use vstd::string::*;
use vstd::utf8::*;
use crate::cfile::CompressedFile;
use crate::server::config::{listing_entry, listing_of};
use crate::util::{first_zero_or_len, lemma_first_zero_unique, lossy_text, string_from_utf8_lossy};
use crate::wire::{be_bytes, be_value, lemma_be_roundtrip, u32_from_be_bytes};

verus! {

/// A listing can be read to its end: every zero byte that ends a name is
/// followed by a whole four-byte flags word.
pub open spec fn listing_well_formed(b: Seq<u8>) -> bool
    decreases b.len(),
{
    let k = first_zero_or_len(b);
    k < b.len() ==> (0 <= k && k + 5 <= b.len() && listing_well_formed(
        b.subrange(k + 5, b.len() as int),
    ))
}

/// The (name bytes, flags) entries of a listing, in order. Bytes after the
/// last complete entry that hold no zero byte are ignored.
pub open spec fn listing_entries(b: Seq<u8>) -> Seq<(Seq<u8>, u32)>
    decreases b.len(),
{
    let k = first_zero_or_len(b);
    if 0 <= k && k + 5 <= b.len() {
        seq![(b.subrange(0, k), be_value(b.subrange(k + 1, k + 5)))] + listing_entries(
            b.subrange(k + 5, b.len() as int),
        )
    } else {
        seq![]
    }
}

/// The status shown for a flags word.
pub open spec fn status_text(flags: u32) -> Seq<char> {
    if flags & 1u32 == 1u32 {
        ": Compressed\n"@
    } else {
        ": Uncompressed\n"@
    }
}

/// The line shown for one entry.
pub open spec fn entry_text(e: (Seq<u8>, u32)) -> Seq<char> {
    "[*] "@ + lossy_text(e.0) + status_text(e.1)
}

/// The lines shown for the entries, in order.
pub open spec fn listing_text(es: Seq<(Seq<u8>, u32)>) -> Seq<char>
    decreases es.len(),
{
    if es.len() == 0 {
        seq![]
    } else {
        entry_text(es[0]) + listing_text(es.drop_first())
    }
}

/// Renders a listing as text: one line "[*] <name>: Compressed" or
/// "[*] <name>: Uncompressed" per entry.
pub fn parse_bytes(bytes: &[u8]) -> (res: String)
    requires
        listing_well_formed(bytes@),
    ensures
        res@ == listing_text(listing_entries(bytes@)),
{
    let n = bytes.len();
    let mut result = String::new();
    let mut left: usize = 0;
    let mut right: usize = 0;
    proof {
        assert(bytes@.subrange(0, n as int) =~= bytes@);
    }
    while right < n
        invariant
            left <= right <= n,
            n == bytes@.len(),
            listing_well_formed(bytes@.subrange(left as int, n as int)),
            forall|j: int| left <= j < right ==> bytes@[j] != 0u8,
            listing_text(listing_entries(bytes@)) == result@ + listing_text(
                listing_entries(bytes@.subrange(left as int, n as int)),
            ),
        decreases n - right,
    {
        if bytes[right] == 0u8 {
            proof {
                lemma_listing_step(bytes@, left as int, right as int);
            }
            let name = string_from_utf8_lossy(&bytes[left..right]);
            let flags = u32_from_be_bytes(bytes, right + 1);
            let ghost before = result@;
            result.append("[*] ");
            result.append(name.as_str());
            if flags & 1u32 == 1u32 {
                result.append(": Compressed\n");
            } else {
                result.append(": Uncompressed\n");
            }
            proof {
                let e = (bytes@.subrange(left as int, right as int), flags);
                let rest = listing_entries(bytes@.subrange(right + 5, n as int));
                lemma_text_cons(e, rest);
                assert(result@ =~= before + entry_text(e));
            }
            left = right + 5;
            right = right + 5;
        } else {
            right = right + 1;
        }
    }
    proof {
        let sub = bytes@.subrange(left as int, n as int);
        lemma_first_zero_unique(sub, sub.len() as int);
        assert(result@ =~= result@ + listing_text(listing_entries(sub)));
    }
    result
}

/// Whether a listing can be read to its end (see `listing_well_formed`).
pub fn listing_is_well_formed(bytes: &[u8]) -> (res: bool)
    ensures
        res == listing_well_formed(bytes@),
{
    let n = bytes.len();
    let mut left: usize = 0;
    let mut right: usize = 0;
    proof {
        assert(bytes@.subrange(0, n as int) =~= bytes@);
    }
    while right < n
        invariant
            left <= right <= n,
            n == bytes@.len(),
            forall|j: int| left <= j < right ==> bytes@[j] != 0u8,
            listing_well_formed(bytes@) == listing_well_formed(bytes@.subrange(left as int, n as int)),
        decreases n - right,
    {
        if bytes[right] == 0u8 {
            let ghost sub = bytes@.subrange(left as int, n as int);
            proof {
                lemma_first_zero_unique(sub, right - left);
            }
            if n - right < 5 {
                return false;
            }
            proof {
                assert(sub.subrange(right - left + 5, sub.len() as int) =~= bytes@.subrange(
                    right + 5,
                    n as int,
                ));
            }
            left = right + 5;
            right = right + 5;
        } else {
            right = right + 1;
        }
    }
    proof {
        let sub = bytes@.subrange(left as int, n as int);
        lemma_first_zero_unique(sub, sub.len() as int);
    }
    true
}

/// Reading the entry whose name ends at the zero byte `b[right]`.
proof fn lemma_listing_step(b: Seq<u8>, left: int, right: int)
    requires
        0 <= left <= right < b.len(),
        b[right] == 0u8,
        forall|j: int| left <= j < right ==> b[j] != 0u8,
        listing_well_formed(b.subrange(left, b.len() as int)),
    ensures
        right + 5 <= b.len(),
        listing_well_formed(b.subrange(right + 5, b.len() as int)),
        listing_entries(b.subrange(left, b.len() as int)) == seq![
            (b.subrange(left, right), be_value(b.subrange(right + 1, right + 5))),
        ] + listing_entries(b.subrange(right + 5, b.len() as int)),
{
    let sub = b.subrange(left, b.len() as int);
    let k = right - left;
    lemma_first_zero_unique(sub, k);
    assert(sub.subrange(k + 5, sub.len() as int) =~= b.subrange(right + 5, b.len() as int));
    assert(sub.subrange(0, k) =~= b.subrange(left, right));
    assert(sub.subrange(k + 1, k + 5) =~= b.subrange(right + 1, right + 5));
}

/// The text of a listing whose first entry is `e`.
proof fn lemma_text_cons(e: (Seq<u8>, u32), rest: Seq<(Seq<u8>, u32)>)
    ensures
        listing_text(seq![e] + rest) == entry_text(e) + listing_text(rest),
{
    assert((seq![e] + rest).drop_first() =~= rest);
    assert((seq![e] + rest)[0] == e);
}

/// The line a client shows for a hosted file.
pub open spec fn file_line(f: CompressedFile) -> Seq<char> {
    "[*] "@ + f@.name + (if f@.compressed {
        ": Compressed\n"@
    } else {
        ": Uncompressed\n"@
    })
}

/// The lines a client shows for the hosted files, in order.
pub open spec fn listing_display(files: Seq<CompressedFile>) -> Seq<char>
    decreases files.len(),
{
    if files.len() == 0 {
        seq![]
    } else {
        file_line(files[0]) + listing_display(files.drop_first())
    }
}

/// No hosted name holds the NUL character, which ends names in a listing.
pub open spec fn names_hold_no_nul(files: Seq<CompressedFile>) -> bool {
    forall|i: int| 0 <= i < files.len() ==> !(#[trigger] files[i]@.name_bytes()).contains(0u8)
}

/// A listing is the entries of its first file followed by the listing of the rest.
proof fn lemma_listing_front(files: Seq<CompressedFile>)
    requires
        files.len() > 0,
    ensures
        listing_of(files) == listing_entry(files[0]) + listing_of(files.drop_first()),
    decreases files.len(),
{
    if files.len() == 1 {
        assert(files.drop_last() =~= Seq::<CompressedFile>::empty());
        assert(files.drop_first() =~= Seq::<CompressedFile>::empty());
        assert(listing_of(files.drop_last()) == Seq::<u8>::empty());
        assert(listing_of(files.drop_first()) == Seq::<u8>::empty());
        assert(files.last() == files[0]);
        assert(listing_of(files) == listing_of(files.drop_last()) + listing_entry(files.last()));
        assert(listing_of(files) =~= listing_entry(files[0]));
        assert(listing_entry(files[0]) + listing_of(files.drop_first()) =~= listing_entry(files[0]));
    } else {
        let init = files.drop_last();
        lemma_listing_front(init);
        assert(init.drop_first() =~= files.drop_first().drop_last());
        assert(files.drop_first().last() == files.last());
        assert(listing_of(files) =~= listing_entry(files[0]) + listing_of(files.drop_first()));
    }
}

/// Reading one entry off the front of a listing.
proof fn lemma_entry_front(f: CompressedFile, rest: Seq<u8>)
    requires
        !f@.name_bytes().contains(0u8),
    ensures
        ({
            let b = listing_entry(f) + rest;
            let k = f@.name_bytes().len() as int;
            &&& first_zero_or_len(b) == k
            &&& k + 5 <= b.len()
            &&& b.subrange(0, k) == f@.name_bytes()
            &&& be_value(b.subrange(k + 1, k + 5)) == f@.flags()
            &&& b.subrange(k + 5, b.len() as int) == rest
        }),
{
    let name = f@.name_bytes();
    let b = listing_entry(f) + rest;
    let k = name.len() as int;
    assert forall|j: int| 0 <= j < k implies b[j] != 0u8 by {
        assert(b[j] == name[j]);
        if b[j] == 0u8 {
            assert(name.contains(0u8));
        }
    }
    assert(b[k] == 0u8);
    lemma_first_zero_unique(b, k);
    assert(b.subrange(0, k) =~= name);
    lemma_be_roundtrip(f@.flags());
    assert(b.subrange(k + 1, k + 5) =~= be_bytes(f@.flags()));
    assert(b.subrange(k + 5, b.len() as int) =~= rest);
}

/// A client reading a server's listing recovers every hosted file's name and
/// flags, in order, and shows one line per file with its name and whether it
/// is compressed (names that hold no NUL character).
pub proof fn lemma_listing_roundtrip(files: Seq<CompressedFile>)
    requires
        names_hold_no_nul(files),
    ensures
        listing_well_formed(listing_of(files)),
        listing_entries(listing_of(files)) == files.map_values(
            |f: CompressedFile| (f@.name_bytes(), f@.flags()),
        ),
        listing_text(listing_entries(listing_of(files))) == listing_display(files),
    decreases files.len(),
{
    let es = files.map_values(|f: CompressedFile| (f@.name_bytes(), f@.flags()));
    if files.len() == 0 {
        lemma_first_zero_unique(listing_of(files), 0);
        assert(es =~= Seq::<(Seq<u8>, u32)>::empty());
    } else {
        let f = files[0];
        let tail = files.drop_first();
        assert(names_hold_no_nul(tail)) by {
            assert forall|i: int| 0 <= i < tail.len() implies !(
            #[trigger] tail[i]@.name_bytes()).contains(0u8) by {
                assert(tail[i] == files[i + 1]);
            }
        }
        assert(!f@.name_bytes().contains(0u8));
        lemma_listing_roundtrip(tail);
        lemma_listing_front(files);
        lemma_entry_front(f, listing_of(tail));
        let e = (f@.name_bytes(), f@.flags());
        assert(listing_entries(listing_of(files)) == seq![e] + listing_entries(listing_of(tail)));
        assert(es =~= seq![e] + tail.map_values(
            |f: CompressedFile| (f@.name_bytes(), f@.flags()),
        ));
        lemma_text_cons(e, listing_entries(listing_of(tail)));
        encode_utf8_valid_utf8(f@.name);
        encode_utf8_decode_utf8(f@.name);
        assert(status_text(f@.flags()) == (if f@.compressed {
            ": Compressed\n"@
        } else {
            ": Uncompressed\n"@
        })) by {
            assert(1u32 & 1u32 == 1u32) by (bit_vector);
            assert(0u32 & 1u32 == 0u32) by (bit_vector);
        }
        assert(entry_text(e) =~= file_line(f));
    }
}

} // verus!
