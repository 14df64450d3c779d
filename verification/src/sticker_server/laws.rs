//! What the sticker server's reads give back of its writes.
use vstd::prelude::*;
use crate::text::before_first;
use super::http::{decoded_text, pack_path, percent_decoded, plain_404, sticker_path_id, sticker_response};
use super::state::StickerState;
use super::state::assembled;
use super::api::present;
use super::types::{content_type_of_extension, MAX_CHUNK_SIZE};
use super::zip_upload::{chunk_slice, chunk_total, data_chunks};

verus! {

proof fn lemma_chunks_prefix(chunks: Map<(u32, u32), Seq<u8>>, sticker_id: u32, parts: Seq<Seq<u8>>, n: nat)
    requires
        n <= parts.len() <= u32::MAX as nat + 1,
        forall|k: u32| (k as int) < parts.len() ==> #[trigger] chunks.contains_key((sticker_id, k)) && chunks[(sticker_id, k)] == parts[k as int],
    ensures
        assembled(chunks, sticker_id, n) == parts.subrange(0, n as int).flatten(),
    decreases n,
{
    if n > 0 {
        let p = (n - 1) as nat;
        lemma_chunks_prefix(chunks, sticker_id, parts, p);
        let init = parts.subrange(0, p as int);
        assert(chunks.contains_key((sticker_id, p as u32)));
        init.lemma_flatten_push(parts[p as int]);
        assert(init.push(parts[p as int]) =~= parts.subrange(0, n as int));
    } else {
        assert(parts.subrange(0, 0) =~= Seq::<Seq<u8>>::empty());
    }
}

/// Reading a sticker's data gives back, in order, the chunks stored for it: when chunks
/// `0..n` hold `parts`, the data is `parts` concatenated.
pub proof fn law_stored_chunks_read_back(chunks: Map<(u32, u32), Seq<u8>>, sticker_id: u32, parts: Seq<Seq<u8>>)
    requires
        parts.len() <= u32::MAX as nat + 1,
        forall|k: u32| (k as int) < parts.len() ==> #[trigger] chunks.contains_key((sticker_id, k)) && chunks[(sticker_id, k)] == parts[k as int],
    ensures
        assembled(chunks, sticker_id, parts.len()) == parts.flatten(),
{
    lemma_chunks_prefix(chunks, sticker_id, parts, parts.len());
    assert(parts.subrange(0, parts.len() as int) =~= parts);
}

proof fn lemma_chunk_bounds(len: nat, n: nat)
    requires
        n < chunk_total(len),
    ensures
        n * MAX_CHUNK_SIZE < len,
{
    let m = MAX_CHUNK_SIZE as int;
    let q = chunk_total(len) as int;
    let t = len + m - 1;
    assert(q == t / m);
    vstd::arithmetic::div_mod::lemma_fundamental_div_mod(t, m);
    assert(q * m <= t) by {
        vstd::arithmetic::div_mod::lemma_mod_pos_bound(t, m);
    }
    assert((n + 1) * m <= q * m) by (nonlinear_arith)
        requires
            n + 1 <= q,
            m > 0,
    ;
}

proof fn lemma_chunk_total_covers(len: nat)
    ensures
        chunk_total(len) * MAX_CHUNK_SIZE >= len,
{
    let m = MAX_CHUNK_SIZE as int;
    let q = chunk_total(len) as int;
    let t = len + m - 1;
    vstd::arithmetic::div_mod::lemma_fundamental_div_mod(t, m);
    vstd::arithmetic::div_mod::lemma_mod_pos_bound(t, m);
    assert(q * m == m * q) by (nonlinear_arith);
}

proof fn lemma_zip_prefix(id: u32, data: Seq<u8>, n: nat)
    requires
        data.len() <= u32::MAX,
        n <= chunk_total(data.len()),
    ensures
        assembled(data_chunks(id, data), id, n) == data.subrange(
            0,
            if n * MAX_CHUNK_SIZE < data.len() { n * MAX_CHUNK_SIZE } else { data.len() as int },
        ),
    decreases n,
{
    let m = MAX_CHUNK_SIZE as int;
    if n == 0 {
        assert(data.subrange(0, 0) =~= Seq::<u8>::empty());
    } else {
        let p = (n - 1) as nat;
        lemma_zip_prefix(id, data, p);
        lemma_chunk_bounds(data.len(), p);
        assert(chunk_total(data.len()) <= u32::MAX) by {
            assert(chunk_total(data.len()) <= data.len() + m) by (nonlinear_arith)
                requires
                    chunk_total(data.len()) == (data.len() + m - 1) / m,
                    m > 1,
            ;
            assert(data.len() + m <= u32::MAX * 2);
            lemma_chunk_bounds(data.len(), p);
        }
        assert((p as u32) as nat == p) by {
            assert(p * m < data.len());
            assert(p <= p * m) by (nonlinear_arith)
                requires
                    m >= 1,
            ;
        }
        let dc = data_chunks(id, data);
        assert(dc.contains_key((id, p as u32)));
        assert(dc[(id, p as u32)] == chunk_slice(data, p));
        assert(p * m + m == n * m) by (nonlinear_arith)
            requires
                n == p + 1,
        ;
        assert(assembled(dc, id, n) =~= data.subrange(
            0,
            if n * m < data.len() { n * m } else { data.len() as int },
        ));
    }
}

/// A sticker imported from an archive reads back as the bytes of its file: the chunks
/// that the import stores reassemble to the file.
pub proof fn law_zip_sticker_reads_back(id: u32, data: Seq<u8>)
    requires
        data.len() <= u32::MAX,
    ensures
        assembled(data_chunks(id, data), id, chunk_total(data.len())) == data,
{
    lemma_zip_prefix(id, data, chunk_total(data.len()));
    lemma_chunk_total_covers(data.len());
    assert(data.subrange(0, data.len() as int) =~= data);
}

proof fn lemma_plain_decodes_to_itself(b: Seq<u8>, i: int)
    requires
        0 <= i <= b.len(),
        forall|k: int| 0 <= k < b.len() ==> #[trigger] b[k] != 37u8 && b[k] != 43u8,
    ensures
        percent_decoded(b, i) == b.subrange(i, b.len() as int),
    decreases b.len() - i,
{
    if i < b.len() {
        lemma_plain_decodes_to_itself(b, i + 1);
        assert(b.subrange(i, b.len() as int) =~= seq![b[i]] + b.subrange(i + 1, b.len() as int));
    } else {
        assert(b.subrange(i, b.len() as int) =~= Seq::<u8>::empty());
    }
}

/// Percent-decoding leaves bytes without `%` and `+` as they are.
pub proof fn law_plain_name_decodes_to_itself(b: Seq<u8>)
    requires
        forall|k: int| 0 <= k < b.len() ==> #[trigger] b[k] != 37u8 && b[k] != 43u8,
    ensures
        percent_decoded(b, 0) == b,
{
    lemma_plain_decodes_to_itself(b, 0);
    assert(b.subrange(0, b.len() as int) =~= b);
}

/// A pack name whose UTF-8 bytes hold no `%` and no `+` decodes, from a request path,
/// to the name itself: a request for `/{name}/{index}` looks the pack up by `name`.
pub proof fn law_plain_pack_name_round_trip(name: Seq<char>)
    requires
        forall|k: int| 0 <= k < vstd::utf8::encode_utf8(name).len()
            ==> #[trigger] vstd::utf8::encode_utf8(name)[k] != 37u8 && vstd::utf8::encode_utf8(name)[k] != 43u8,
    ensures
        decoded_text(percent_decoded(vstd::utf8::encode_utf8(name), 0)) == name,
{
    law_plain_name_decodes_to_itself(vstd::utf8::encode_utf8(name));
    vstd::utf8::encode_utf8_valid_utf8(name);
    vstd::utf8::encode_utf8_decode_utf8(name);
}

/// A request whose path names a pack by a name without `%` and `+` is answered from
/// the pack of that very name: the sticker at the given 1-based index among its
/// members, or "Sticker not found".
pub proof fn law_plain_pack_name_routes_to_pack(s: StickerState, url: Seq<char>, name: Seq<char>, index: nat)
    requires
        sticker_path_id(before_first(url, '?')) is None,
        pack_path(before_first(url, '?')) == Some((name, index)),
        forall|k: int| 0 <= k < vstd::utf8::encode_utf8(name).len()
            ==> #[trigger] vstd::utf8::encode_utf8(name)[k] != 37u8 && vstd::utf8::encode_utf8(name)[k] != 43u8,
    ensures
        s.routed_response(url) == (if s.has_pack_named(name) && index - 1 < s.members(s.pack_named(name)).len() {
            sticker_response(&s, s.members(s.pack_named(name))[index - 1] as u32)
        } else {
            plain_404("Sticker not found"@)
        }),
{
    law_plain_pack_name_round_trip(name);
}

/// `ext` spells the lower-case ASCII word `w`, each letter in either case.
pub open spec fn spells(ext: Seq<u8>, w: Seq<u8>) -> bool {
    ext.len() == w.len() && forall|i: int| 0 <= i < w.len() ==> ext[i] == w[i] || ext[i] + 32 == w[i]
}

/// The image extensions, in any ASCII case, name their content types: png, gif, webp,
/// and both jpg and jpeg for JPEG; an extension that names a content type is one of
/// them.
pub proof fn law_image_extensions(ext: Seq<u8>)
    ensures
        spells(ext, seq![112u8, 110u8, 103u8]) ==> content_type_of_extension(ext) == Some("image/png"@),
        spells(ext, seq![103u8, 105u8, 102u8]) ==> content_type_of_extension(ext) == Some("image/gif"@),
        spells(ext, seq![119u8, 101u8, 98u8, 112u8]) ==> content_type_of_extension(ext) == Some("image/webp"@),
        spells(ext, seq![106u8, 112u8, 103u8]) ==> content_type_of_extension(ext) == Some("image/jpeg"@),
        spells(ext, seq![106u8, 112u8, 101u8, 103u8]) ==> content_type_of_extension(ext) == Some("image/jpeg"@),
        content_type_of_extension(ext) is Some ==> spells(ext, seq![112u8, 110u8, 103u8])
            || spells(ext, seq![103u8, 105u8, 102u8]) || spells(ext, seq![119u8, 101u8, 98u8, 112u8])
            || spells(ext, seq![106u8, 112u8, 103u8]) || spells(ext, seq![106u8, 112u8, 101u8, 103u8]),
{
    let words = seq![
        seq![112u8, 110u8, 103u8],
        seq![103u8, 105u8, 102u8],
        seq![119u8, 101u8, 98u8, 112u8],
        seq![106u8, 112u8, 103u8],
        seq![106u8, 112u8, 101u8, 103u8],
    ];
    assert forall|k: int| 0 <= k < 5 implies (spells(ext, #[trigger] words[k]) <==> super::types::eq_ignoring_case(ext, words[k])) by {
        let w = words[k];
        if spells(ext, w) {
            assert forall|i: int| 0 <= i < ext.len() implies super::types::ascii_lower(#[trigger] ext[i]) == w[i] by {
                assert(97 <= w[i] <= 122);
            }
        }
        if super::types::eq_ignoring_case(ext, w) {
            assert forall|i: int| 0 <= i < w.len() implies ext[i] == w[i] || ext[i] + 32 == w[i] by {
                assert(super::types::ascii_lower(ext[i]) == w[i]);
                assert(97 <= w[i] <= 122);
            }
        }
    }
    assert(words[0] == seq![112u8, 110u8, 103u8]);
    assert(words[1] == seq![103u8, 105u8, 102u8]);
    assert(words[2] == seq![119u8, 101u8, 98u8, 112u8]);
    assert(words[3] == seq![106u8, 112u8, 103u8]);
    assert(words[4] == seq![106u8, 112u8, 101u8, 103u8]);
}

/// The stickers listed for a window of member ids are exactly those of its ids that
/// have a stored sticker, whatever its storage.
pub proof fn law_present_keeps_stored(stickers: Map<u32, super::types::Sticker>, ids: Seq<u64>)
    ensures
        forall|x: u64| #[trigger] present(stickers, ids).contains(x) <==> ids.contains(x) && stickers.contains_key(x as u32),
    decreases ids.len(),
{
    if ids.len() > 0 {
        let init = ids.drop_last();
        law_present_keeps_stored(stickers, init);
        let p0 = present(stickers, init);
        let tail = if stickers.contains_key(ids.last() as u32) { seq![ids.last()] } else { Seq::<u64>::empty() };
        assert(present(stickers, ids) == p0 + tail);
        assert forall|x: u64| #[trigger] present(stickers, ids).contains(x) <==> ids.contains(x) && stickers.contains_key(x as u32) by {
            let all = present(stickers, ids);
            if all.contains(x) {
                let k = choose|k: int| 0 <= k < all.len() && all[k] == x;
                if k < p0.len() {
                    assert(p0[k] == x);
                    assert(p0.contains(x));
                    let j = choose|j: int| 0 <= j < init.len() && init[j] == x;
                    assert(ids[j] == x);
                } else {
                    assert(tail[k - p0.len()] == x);
                    assert(ids[ids.len() - 1] == x);
                }
            }
            if ids.contains(x) && stickers.contains_key(x as u32) {
                let j = choose|j: int| 0 <= j < ids.len() && ids[j] == x;
                if j < init.len() {
                    assert(init[j] == x);
                    assert(init.contains(x));
                    assert(p0.contains(x));
                    let k = choose|k: int| 0 <= k < p0.len() && p0[k] == x;
                    assert(all[k] == p0[k]);
                    assert(all[k] == x);
                } else {
                    assert(all[p0.len() as int] == x);
                }
            }
        }
    } else {
        assert(present(stickers, ids) =~= Seq::<u64>::empty());
    }
}

} // verus!
