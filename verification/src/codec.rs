//! The binary layout of persisted records.
//!
//! Every artifact is a headerless concatenation of fixed-width records. A
//! centroid record is `W` single-precision numbers, each stored as the four
//! bytes of its IEEE-754 bit pattern, least significant byte first. A
//! quantized record is `W` centroid codes of two bytes each, least significant
//! byte first. A byte string is a valid artifact exactly when its length is a
//! multiple of the record width in bytes.
use vstd::arithmetic::div_mod::lemma_fundamental_div_mod_converse;
use vstd::arithmetic::div_mod::lemma_fundamental_div_mod;
use vstd::array::array_fill_for_copy_types;
use vstd::prelude::*;

verus! {

/// A byte string whose length is not a whole number of records.
#[derive(Debug, Clone, Copy, PartialEq, Eq, Structural)]
pub struct FormatError {
    /// Length of the rejected input, in units (bytes, or elements when regrouping).
    pub length: usize,
    /// Width of one record, in the same units.
    pub record_width: usize,
}

/// The four bytes of a 32-bit word, least significant first.
pub open spec fn word_bytes(w: u32) -> Seq<u8> {
    seq![
        (w & 0xff) as u8,
        ((w >> 8) & 0xff) as u8,
        ((w >> 16) & 0xff) as u8,
        ((w >> 24) & 0xff) as u8,
    ]
}

/// The word whose little-endian bytes are `b0 b1 b2 b3`.
pub open spec fn word_of(b0: u8, b1: u8, b2: u8, b3: u8) -> u32 {
    (b0 as u32) | ((b1 as u32) << 8) | ((b2 as u32) << 16) | ((b3 as u32) << 24)
}

/// The two bytes of a 16-bit code, least significant first.
pub open spec fn code_bytes(c: u16) -> Seq<u8> {
    seq![(c & 0xff) as u8, ((c >> 8) & 0xff) as u8]
}

/// The code whose little-endian bytes are `b0 b1`.
pub open spec fn code_of(b0: u8, b1: u8) -> u16 {
    (b0 as u16) | ((b1 as u16) << 8)
}

/// The byte image of a sequence of words: four bytes per word, in order.
pub open spec fn words_to_bytes(words: Seq<u32>) -> Seq<u8> {
    Seq::new(4 * words.len(), |k: int| word_bytes(words[k / 4])[k % 4])
}

/// The words stored in a byte string; meaningful when the length is a multiple of four.
pub open spec fn bytes_to_words(bytes: Seq<u8>) -> Seq<u32> {
    Seq::new(
        bytes.len() / 4,
        |i: int| word_of(bytes[4 * i], bytes[4 * i + 1], bytes[4 * i + 2], bytes[4 * i + 3]),
    )
}

/// The byte image of a sequence of codes: two bytes per code, in order.
pub open spec fn codes_to_bytes(codes: Seq<u16>) -> Seq<u8> {
    Seq::new(2 * codes.len(), |k: int| code_bytes(codes[k / 2])[k % 2])
}

/// The codes stored in a byte string; meaningful when the length is even.
pub open spec fn bytes_to_codes(bytes: Seq<u8>) -> Seq<u16> {
    Seq::new(bytes.len() / 2, |i: int| code_of(bytes[2 * i], bytes[2 * i + 1]))
}

/// The elements of a list of `W`-wide records, record after record.
pub open spec fn flat<T, const W: usize>(records: Seq<[T; W]>) -> Seq<T> {
    Seq::new(records.len() * W as nat, |k: int| records[k / (W as int)]@[k % (W as int)])
}

/// `records` is `elements` cut into consecutive runs of `W`.
pub open spec fn is_grouping<T, const W: usize>(records: Seq<[T; W]>, elements: Seq<T>) -> bool {
    &&& elements.len() == records.len() * W
    &&& forall|r: int, c: int|
        0 <= r < records.len() && 0 <= c < W ==> (#[trigger] records[r]@[c]) == elements[r * W + c]
}

/// Decoding the bytes of a word gives the word back.
pub proof fn lemma_word_round_trip(w: u32)
    ensures
        word_bytes(w).len() == 4,
        word_of(word_bytes(w)[0], word_bytes(w)[1], word_bytes(w)[2], word_bytes(w)[3]) == w,
{
    let b0 = (w & 0xff) as u8;
    let b1 = ((w >> 8) & 0xff) as u8;
    let b2 = ((w >> 16) & 0xff) as u8;
    let b3 = ((w >> 24) & 0xff) as u8;
    assert((b0 as u32) | ((b1 as u32) << 8) | ((b2 as u32) << 16) | ((b3 as u32) << 24) == w)
        by (bit_vector)
        requires
            b0 == (w & 0xff) as u8,
            b1 == ((w >> 8) & 0xff) as u8,
            b2 == ((w >> 16) & 0xff) as u8,
            b3 == ((w >> 24) & 0xff) as u8,
    ;
}

/// Encoding the word made of four bytes gives the four bytes back.
pub proof fn lemma_bytes_round_trip(b0: u8, b1: u8, b2: u8, b3: u8)
    ensures
        word_bytes(word_of(b0, b1, b2, b3)) == seq![b0, b1, b2, b3],
{
    let w = word_of(b0, b1, b2, b3);
    assert((w & 0xff) as u8 == b0 && ((w >> 8) & 0xff) as u8 == b1 && ((w >> 16) & 0xff) as u8
        == b2 && ((w >> 24) & 0xff) as u8 == b3) by (bit_vector)
        requires
            w == (b0 as u32) | ((b1 as u32) << 8) | ((b2 as u32) << 16) | ((b3 as u32) << 24),
    ;
    assert(word_bytes(w) =~= seq![b0, b1, b2, b3]);
}

/// Decoding the bytes of a code gives the code back.
pub proof fn lemma_code_round_trip(c: u16)
    ensures
        code_bytes(c).len() == 2,
        code_of(code_bytes(c)[0], code_bytes(c)[1]) == c,
{
    let b0 = (c & 0xff) as u8;
    let b1 = ((c >> 8) & 0xff) as u8;
    assert((b0 as u16) | ((b1 as u16) << 8) == c) by (bit_vector)
        requires
            b0 == (c & 0xff) as u8,
            b1 == ((c >> 8) & 0xff) as u8,
    ;
}

/// Encoding the code made of two bytes gives the two bytes back.
pub proof fn lemma_code_bytes_round_trip(b0: u8, b1: u8)
    ensures
        code_bytes(code_of(b0, b1)) == seq![b0, b1],
{
    let c = code_of(b0, b1);
    assert((c & 0xff) as u8 == b0 && ((c >> 8) & 0xff) as u8 == b1) by (bit_vector)
        requires
            c == (b0 as u16) | ((b1 as u16) << 8),
    ;
    assert(code_bytes(c) =~= seq![b0, b1]);
}

/// Words survive a trip through their byte image unchanged.
pub proof fn lemma_words_round_trip(words: Seq<u32>)
    ensures
        words_to_bytes(words).len() == 4 * words.len(),
        bytes_to_words(words_to_bytes(words)) == words,
{
    let bytes = words_to_bytes(words);
    assert forall|i: int| 0 <= i < words.len() implies bytes_to_words(bytes)[i] == words[i] by {
        lemma_word_round_trip(words[i]);
        assert(bytes[4 * i] == word_bytes(words[i])[0]);
        assert(bytes[4 * i + 1] == word_bytes(words[i])[1]);
        assert(bytes[4 * i + 2] == word_bytes(words[i])[2]);
        assert(bytes[4 * i + 3] == word_bytes(words[i])[3]);
    }
    assert(bytes_to_words(bytes) =~= words);
}

/// A byte string of whole words is the byte image of the words it stores.
pub proof fn lemma_word_bytes_round_trip(bytes: Seq<u8>)
    requires
        bytes.len() % 4 == 0,
    ensures
        words_to_bytes(bytes_to_words(bytes)) == bytes,
{
    let words = bytes_to_words(bytes);
    assert forall|k: int| 0 <= k < bytes.len() implies words_to_bytes(words)[k] == bytes[k] by {
        let i = k / 4;
        lemma_bytes_round_trip(bytes[4 * i], bytes[4 * i + 1], bytes[4 * i + 2], bytes[4 * i + 3]);
    }
    assert(words_to_bytes(words) =~= bytes);
}

/// Codes survive a trip through their byte image unchanged.
pub proof fn lemma_codes_round_trip(codes: Seq<u16>)
    ensures
        codes_to_bytes(codes).len() == 2 * codes.len(),
        bytes_to_codes(codes_to_bytes(codes)) == codes,
{
    let bytes = codes_to_bytes(codes);
    assert forall|i: int| 0 <= i < codes.len() implies bytes_to_codes(bytes)[i] == codes[i] by {
        lemma_code_round_trip(codes[i]);
        assert(bytes[2 * i] == code_bytes(codes[i])[0]);
        assert(bytes[2 * i + 1] == code_bytes(codes[i])[1]);
    }
    assert(bytes_to_codes(bytes) =~= codes);
}

/// A byte string of whole codes is the byte image of the codes it stores.
pub proof fn lemma_code_string_round_trip(bytes: Seq<u8>)
    requires
        bytes.len() % 2 == 0,
    ensures
        codes_to_bytes(bytes_to_codes(bytes)) == bytes,
{
    let codes = bytes_to_codes(bytes);
    assert forall|k: int| 0 <= k < bytes.len() implies codes_to_bytes(codes)[k] == bytes[k] by {
        let i = k / 2;
        lemma_code_bytes_round_trip(bytes[2 * i], bytes[2 * i + 1]);
    }
    assert(codes_to_bytes(codes) =~= bytes);
}

/// Writes each word as four little-endian bytes.
pub fn encode_words(words: &Vec<u32>) -> (bytes: Vec<u8>)
    requires
        4 * words.len() <= usize::MAX,
    ensures
        bytes@ == words_to_bytes(words@),
{
    let mut bytes: Vec<u8> = Vec::new();
    let mut i: usize = 0;
    while i < words.len()
        invariant
            i <= words.len(),
            bytes@.len() == 4 * i,
            forall|k: int| 0 <= k < 4 * i ==> bytes@[k] == word_bytes(words@[k / 4])[k % 4],
        decreases words.len() - i,
    {
        let w: u32 = words[i];
        bytes.push((w & 0xff) as u8);
        bytes.push(((w >> 8) & 0xff) as u8);
        bytes.push(((w >> 16) & 0xff) as u8);
        bytes.push(((w >> 24) & 0xff) as u8);
        i = i + 1;
    }
    assert(bytes@ =~= words_to_bytes(words@));
    bytes
}

/// Reads a byte string as little-endian words; fails unless it holds whole words.
pub fn decode_words(bytes: &Vec<u8>) -> (r: Result<Vec<u32>, FormatError>)
    ensures
        bytes.len() % 4 == 0 ==> r is Ok && r->Ok_0@ == bytes_to_words(bytes@),
        bytes.len() % 4 != 0 ==> r == Err::<Vec<u32>, FormatError>(
            FormatError { length: bytes.len(), record_width: 4 },
        ),
{
    if bytes.len() % 4 != 0 {
        return Err(FormatError { length: bytes.len(), record_width: 4 });
    }
    let n: usize = bytes.len() / 4;
    let mut words: Vec<u32> = Vec::new();
    let mut i: usize = 0;
    while i < n
        invariant
            i <= n,
            n == bytes.len() / 4,
            bytes.len() % 4 == 0,
            words@.len() == i,
            forall|j: int| 0 <= j < i ==> words@[j] == bytes_to_words(bytes@)[j],
        decreases n - i,
    {
        let b0: u8 = bytes[4 * i];
        let b1: u8 = bytes[4 * i + 1];
        let b2: u8 = bytes[4 * i + 2];
        let b3: u8 = bytes[4 * i + 3];
        let w: u32 = (b0 as u32) | ((b1 as u32) << 8) | ((b2 as u32) << 16) | ((b3 as u32) << 24);
        words.push(w);
        i = i + 1;
    }
    assert(words@ =~= bytes_to_words(bytes@));
    Ok(words)
}

/// Writes each code as two little-endian bytes.
pub fn encode_codes(codes: &Vec<u16>) -> (bytes: Vec<u8>)
    requires
        2 * codes.len() <= usize::MAX,
    ensures
        bytes@ == codes_to_bytes(codes@),
{
    let mut bytes: Vec<u8> = Vec::new();
    let mut i: usize = 0;
    while i < codes.len()
        invariant
            i <= codes.len(),
            bytes@.len() == 2 * i,
            forall|k: int| 0 <= k < 2 * i ==> bytes@[k] == code_bytes(codes@[k / 2])[k % 2],
        decreases codes.len() - i,
    {
        let c: u16 = codes[i];
        bytes.push((c & 0xff) as u8);
        bytes.push(((c >> 8) & 0xff) as u8);
        i = i + 1;
    }
    assert(bytes@ =~= codes_to_bytes(codes@));
    bytes
}

/// Reads a byte string as little-endian codes; fails unless it holds whole codes.
pub fn decode_codes(bytes: &Vec<u8>) -> (r: Result<Vec<u16>, FormatError>)
    ensures
        bytes.len() % 2 == 0 ==> r is Ok && r->Ok_0@ == bytes_to_codes(bytes@),
        bytes.len() % 2 != 0 ==> r == Err::<Vec<u16>, FormatError>(
            FormatError { length: bytes.len(), record_width: 2 },
        ),
{
    if bytes.len() % 2 != 0 {
        return Err(FormatError { length: bytes.len(), record_width: 2 });
    }
    let n: usize = bytes.len() / 2;
    let mut codes: Vec<u16> = Vec::new();
    let mut i: usize = 0;
    while i < n
        invariant
            i <= n,
            n == bytes.len() / 2,
            bytes.len() % 2 == 0,
            codes@.len() == i,
            forall|j: int| 0 <= j < i ==> codes@[j] == bytes_to_codes(bytes@)[j],
        decreases n - i,
    {
        let b0: u8 = bytes[2 * i];
        let b1: u8 = bytes[2 * i + 1];
        let c: u16 = (b0 as u16) | ((b1 as u16) << 8);
        codes.push(c);
        i = i + 1;
    }
    assert(codes@ =~= bytes_to_codes(bytes@));
    Ok(codes)
}

/// Position `r * W + c` of the flattened list lies in record `r`, at column `c`.
pub proof fn lemma_record_position(r: int, c: int, w: int)
    requires
        0 <= r,
        0 <= c < w,
    ensures
        (r * w + c) / w == r,
        (r * w + c) % w == c,
{
    assert(r * w == w * r) by (nonlinear_arith);
    lemma_fundamental_div_mod_converse(r * w + c, w, r, c);
}

/// Every position below `n * w` lies in a record below `n`.
pub proof fn lemma_position_record(k: int, n: int, w: int)
    requires
        0 <= k < n * w,
        0 < w,
    ensures
        0 <= k / w < n,
        0 <= k % w < w,
        k == (k / w) * w + k % w,
{
    lemma_fundamental_div_mod(k, w);
    assert(w * (k / w) == (k / w) * w) by (nonlinear_arith);
    assert(0 <= k / w) by (nonlinear_arith)
        requires
            0 <= k,
            0 < w,
    ;
    if k / w >= n {
        assert((k / w) * w >= n * w) by (nonlinear_arith)
            requires
                k / w >= n,
                0 < w,
        ;
    }
}

/// A grouping of `elements` is the list of records whose flattening is `elements`.
pub proof fn lemma_grouping_is_flat<T, const W: usize>(records: Seq<[T; W]>, elements: Seq<T>)
    requires
        W > 0,
    ensures
        is_grouping(records, elements) <==> elements == flat(records),
{
    let w = W as int;
    if is_grouping(records, elements) {
        assert forall|k: int| 0 <= k < elements.len() implies elements[k] == flat(records)[k] by {
            lemma_position_record(k, records.len() as int, w);
            assert(records[k / w]@[k % w] == elements[(k / w) * w + k % w]);
        }
        assert(elements =~= flat(records));
    }
    if elements == flat(records) {
        assert forall|r: int, c: int| 0 <= r < records.len() && 0 <= c < W implies (
        #[trigger] records[r]@[c]) == elements[r * W + c] by {
            lemma_record_position(r, c, w);
            assert(r * w + c < records.len() * w) by (nonlinear_arith)
                requires
                    0 <= r < records.len(),
                    0 <= c < w,
            ;
        }
    }
}

/// Two lists of records with the same flattening are the same list.
pub proof fn lemma_flat_injective<T, const W: usize>(a: Seq<[T; W]>, b: Seq<[T; W]>)
    requires
        W > 0,
        flat(a) == flat(b),
    ensures
        a == b,
{
    let w = W as int;
    assert(flat(a).len() == a.len() * w);
    assert(flat(b).len() == b.len() * w);
    assert(a.len() == b.len()) by (nonlinear_arith)
        requires
            a.len() * w == b.len() * w,
            w > 0,
    ;
    assert forall|r: int| 0 <= r < a.len() implies a[r] == b[r] by {
        assert forall|c: int| 0 <= c < w implies a[r]@[c] == b[r]@[c] by {
            lemma_record_position(r, c, w);
            assert(r * w + c < a.len() * w) by (nonlinear_arith)
                requires
                    0 <= r < a.len(),
                    0 <= c < w,
            ;
            assert(flat(a)[r * w + c] == a[r]@[c]);
            assert(flat(b)[r * w + c] == b[r]@[c]);
        }
        assert(a[r]@.len() == W);
        assert(b[r]@.len() == W);
        assert(a[r]@ =~= b[r]@);
        assert(a[r] == b[r]);
    }
    assert(a =~= b);
}

/// Lays the elements of `W`-wide records out one record after another.
pub fn flatten<T: Copy, const W: usize>(records: &Vec<[T; W]>) -> (elements: Vec<T>)
    ensures
        elements@ == flat(records@),
{
    let mut elements: Vec<T> = Vec::new();
    let mut r: usize = 0;
    while r < records.len()
        invariant
            r <= records.len(),
            elements@.len() == r * W,
            forall|k: int| 0 <= k < r * W ==> elements@[k] == flat(records@)[k],
        decreases records.len() - r,
    {
        let record: &[T; W] = &records[r];
        let mut c: usize = 0;
        while c < W
            invariant
                r < records.len(),
                c <= W,
                *record == records@[r as int],
                elements@.len() == r * W + c,
                forall|k: int| 0 <= k < r * W + c ==> elements@[k] == flat(records@)[k],
            decreases W - c,
        {
            proof {
                lemma_record_position(r as int, c as int, W as int);
                assert(r * W + c < records.len() * W) by (nonlinear_arith)
                    requires
                        0 <= r < records.len(),
                        0 <= c < W,
                ;
            }
            elements.push(record[c]);
            c = c + 1;
        }
        assert(r * W + W == (r + 1) * W) by (nonlinear_arith);
        r = r + 1;
    }
    assert(elements@ =~= flat(records@));
    elements
}

/// Cuts a list of elements into consecutive records of width `W`; fails unless
/// `W` is positive and divides the length.
pub fn regroup<T: Copy, const W: usize>(elements: &Vec<T>) -> (r: Result<
    Vec<[T; W]>,
    FormatError,
>)
    ensures
        W > 0 && elements.len() % W == 0 ==> r is Ok && flat(r->Ok_0@) == elements@
            && r->Ok_0@.len() == elements.len() / W,
        !(W > 0 && elements.len() % W == 0) ==> r == Err::<Vec<[T; W]>, FormatError>(
            FormatError { length: elements.len(), record_width: W },
        ),
{
    if W == 0 || elements.len() % W != 0 {
        return Err(FormatError { length: elements.len(), record_width: W });
    }
    let n: usize = elements.len() / W;
    let mut records: Vec<[T; W]> = Vec::new();
    let mut r: usize = 0;
    proof {
        lemma_fundamental_div_mod(elements.len() as int, W as int);
        assert(W * n == n * W) by (nonlinear_arith);
    }
    while r < n
        invariant
            W > 0,
            r <= n,
            elements.len() == n * W,
            records@.len() == r,
            forall|i: int, c: int|
                0 <= i < r && 0 <= c < W ==> (#[trigger] records@[i]@[c]) == elements@[i * W + c],
        decreases n - r,
    {
        proof {
            assert(r * W + W <= n * W) by (nonlinear_arith)
                requires
                    r < n,
                    W > 0,
            ;
        }
        let start: usize = r * W;
        let mut record: [T; W] = array_fill_for_copy_types(elements[start]);
        let mut c: usize = 0;
        while c < W
            invariant
                c <= W,
                start == r * W,
                start + W <= elements.len(),
                forall|j: int| 0 <= j < c ==> record@[j] == elements@[start + j],
            decreases W - c,
        {
            record[c] = elements[start + c];
            c = c + 1;
        }
        records.push(record);
        r = r + 1;
    }
    proof {
        assert(is_grouping(records@, elements@));
        lemma_grouping_is_flat(records@, elements@);
        lemma_record_position(n as int, 0, W as int);
    }
    Ok(records)
}

/// The persisted image of a centroid list: each record's numbers in order, four bytes each.
pub open spec fn centroid_file<const W: usize>(centroids: Seq<[u32; W]>) -> Seq<u8> {
    words_to_bytes(flat(centroids))
}

/// The persisted image of a list of quantized records: each record's codes in
/// order, two bytes each.
pub open spec fn quantized_file<const L: usize>(records: Seq<[u16; L]>) -> Seq<u8> {
    codes_to_bytes(flat(records))
}

/// A centroid file holds whole records, and no two centroid lists share a file image.
pub proof fn lemma_centroid_file_faithful<const W: usize>(a: Seq<[u32; W]>, b: Seq<[u32; W]>)
    requires
        W > 0,
    ensures
        centroid_file(a).len() == a.len() * (4 * W),
        centroid_file(a).len() as int % (4 * W) == 0,
        centroid_file(a) == centroid_file(b) ==> a == b,
{
    let w = W as int;
    assert(4 * (a.len() * w) == a.len() * (4 * w)) by (nonlinear_arith);
    assert((a.len() * (4 * w)) % (4 * w) == 0) by (nonlinear_arith)
        requires
            w > 0,
    ;
    if centroid_file(a) == centroid_file(b) {
        lemma_words_round_trip(flat(a));
        lemma_words_round_trip(flat(b));
        lemma_flat_injective(a, b);
    }
}

/// A quantized file holds whole records, and no two record lists share a file image.
pub proof fn lemma_quantized_file_faithful<const L: usize>(a: Seq<[u16; L]>, b: Seq<[u16; L]>)
    requires
        L > 0,
    ensures
        quantized_file(a).len() == a.len() * (2 * L),
        quantized_file(a).len() as int % (2 * L) == 0,
        quantized_file(a) == quantized_file(b) ==> a == b,
{
    let w = L as int;
    assert(2 * (a.len() * w) == a.len() * (2 * w)) by (nonlinear_arith);
    assert((a.len() * (2 * w)) % (2 * w) == 0) by (nonlinear_arith)
        requires
            w > 0,
    ;
    if quantized_file(a) == quantized_file(b) {
        lemma_codes_round_trip(flat(a));
        lemma_codes_round_trip(flat(b));
        lemma_flat_injective(a, b);
    }
}

/// A length that is a multiple of `unit * w` is `unit` times a multiple of `w`.
proof fn lemma_whole_records(len: int, unit: int, w: int)
    requires
        0 <= len,
        0 < unit,
        0 < w,
    ensures
        len % (unit * w) == 0 <==> len % unit == 0 && (len / unit) % w == 0,
        len % (unit * w) == 0 ==> (len / unit) / w == len / (unit * w),
{
    let u = unit * w;
    assert(u > 0) by (nonlinear_arith)
        requires
            u == unit * w,
            0 < unit,
            0 < w,
    ;
    lemma_fundamental_div_mod(len, u);
    lemma_fundamental_div_mod(len, unit);
    lemma_fundamental_div_mod(len / unit, w);
    if len % u == 0 {
        let q = len / u;
        assert(len == unit * (w * q) + 0) by (nonlinear_arith)
            requires
                len == u * q,
                u == unit * w,
        ;
        assert(0 <= w * q) by (nonlinear_arith)
            requires
                0 <= len,
                len == unit * (w * q) + 0,
                0 < unit,
        ;
        lemma_fundamental_div_mod_converse(len, unit, w * q, 0);
        assert(0 <= q) by (nonlinear_arith)
            requires
                0 <= w * q,
                0 < w,
        ;
        lemma_fundamental_div_mod_converse(w * q, w, q, 0);
    }
    if len % unit == 0 && (len / unit) % w == 0 {
        let q = (len / unit) / w;
        assert(len == u * q + 0) by (nonlinear_arith)
            requires
                len == unit * (len / unit),
                len / unit == w * q,
                u == unit * w,
        ;
        assert(0 <= q) by (nonlinear_arith)
            requires
                0 <= len,
                len == u * q + 0,
                0 < u,
        ;
        lemma_fundamental_div_mod_converse(len, u, q, 0);
    }
}

/// Serializes a centroid list to its file image.
pub fn encode_centroids<const W: usize>(centroids: &Vec<[u32; W]>) -> (bytes: Vec<u8>)
    requires
        4 * (centroids.len() * W) <= usize::MAX,
    ensures
        bytes@ == centroid_file(centroids@),
{
    let words = flatten(centroids);
    encode_words(&words)
}

/// Reads a centroid file image; fails unless it holds a whole number of `4 * W`-byte records.
pub fn decode_centroids<const W: usize>(bytes: &Vec<u8>) -> (r: Result<Vec<[u32; W]>, FormatError>)
    requires
        0 < W <= usize::MAX / 4,
    ensures
        bytes.len() as int % (4 * W) == 0 ==> r is Ok && centroid_file(r->Ok_0@) == bytes@
            && r->Ok_0@.len() == bytes.len() as int / (4 * W),
        bytes.len() as int % (4 * W) != 0 ==> r == Err::<Vec<[u32; W]>, FormatError>(
            FormatError { length: bytes.len(), record_width: (4 * W) as usize },
        ),
{
    let record_width: usize = 4 * W;
    proof {
        lemma_whole_records(bytes.len() as int, 4, W as int);
    }
    if bytes.len() % record_width != 0 {
        return Err(FormatError { length: bytes.len(), record_width });
    }
    match decode_words(bytes) {
        Ok(words) => match regroup::<u32, W>(&words) {
            Ok(centroids) => {
                proof {
                    lemma_word_bytes_round_trip(bytes@);
                }
                Ok(centroids)
            },
            Err(e) => Err(e),
        },
        Err(e) => Err(e),
    }
}

/// Serializes a list of quantized records to its file image.
pub fn encode_quantized<const L: usize>(records: &Vec<[u16; L]>) -> (bytes: Vec<u8>)
    requires
        2 * (records.len() * L) <= usize::MAX,
    ensures
        bytes@ == quantized_file(records@),
{
    let codes = flatten(records);
    encode_codes(&codes)
}

/// Reads a quantized file image; fails unless it holds a whole number of `2 * L`-byte records.
pub fn decode_quantized<const L: usize>(bytes: &Vec<u8>) -> (r: Result<
    Vec<[u16; L]>,
    FormatError,
>)
    requires
        0 < L <= usize::MAX / 2,
    ensures
        bytes.len() as int % (2 * L) == 0 ==> r is Ok && quantized_file(r->Ok_0@) == bytes@
            && r->Ok_0@.len() == bytes.len() as int / (2 * L),
        bytes.len() as int % (2 * L) != 0 ==> r == Err::<Vec<[u16; L]>, FormatError>(
            FormatError { length: bytes.len(), record_width: (2 * L) as usize },
        ),
{
    let record_width: usize = 2 * L;
    proof {
        lemma_whole_records(bytes.len() as int, 2, L as int);
    }
    if bytes.len() % record_width != 0 {
        return Err(FormatError { length: bytes.len(), record_width });
    }
    match decode_codes(bytes) {
        Ok(codes) => match regroup::<u16, L>(&codes) {
            Ok(records) => {
                proof {
                    lemma_code_string_round_trip(bytes@);
                }
                Ok(records)
            },
            Err(e) => Err(e),
        },
        Err(e) => Err(e),
    }
}

} // verus!
