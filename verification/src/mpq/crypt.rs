//! The MPQ hashing and table cipher.
//!
//! Both rest on one table of 1280 words generated from a fixed linear
//! congruential sequence. Names are hashed with three different rows of the
//! table (bucket, check A, check B) and a fourth row gives the encryption key of
//! a file or table; the fifth row drives the cipher itself.
use vstd::prelude::*;
use vstd::string::StringSliceAdditionalSpecFns;
use vstd::wrapping::u32_specs::wrapping_add;

verus! {

/// The `n`-th value of the generator behind the crypt table.
pub open spec fn storm_seed(n: nat) -> u32
    decreases n,
{
    if n == 0 {
        0x0010_0001
    } else {
        ((storm_seed((n - 1) as nat) as int * 125 + 3) % 0x2A_AAAB) as u32
    }
}

/// Entry `col` of row `row` of the crypt table.
///
/// The table is filled column by column: column `col` takes ten consecutive
/// generator values, two per row, the first giving the high half of the word
/// and the second the low half.
pub open spec fn crypt_value(row: int, col: int) -> u32 {
    let step = 2 * (5 * col + row);
    let hi = storm_seed((step + 1) as nat);
    let lo = storm_seed((step + 2) as nat);
    ((hi & 0xFFFF) << 16u32) | (lo & 0xFFFF)
}

proof fn lemma_seed_bound(n: nat)
    ensures
        storm_seed(n) < 0x2A_AAAB,
    decreases n,
{
    if n > 0 {
        lemma_seed_bound((n - 1) as nat);
    }
}

proof fn lemma_cell_distinct(r1: int, c1: int, r2: int, c2: int)
    requires
        0 <= c1 < 256,
        0 <= c2 < 256,
        0 <= r1,
        0 <= r2,
        r1 * 256 + c1 == r2 * 256 + c2,
    ensures
        r1 == r2,
        c1 == c2,
{
    assert(r1 == r2 && c1 == c2) by (nonlinear_arith)
        requires
            0 <= c1 < 256,
            0 <= c2 < 256,
            0 <= r1,
            0 <= r2,
            r1 * 256 + c1 == r2 * 256 + c2,
    ;
}

/// The crypt table, laid out row after row: row `r`, column `c` is at
/// `r * 256 + c`.
pub fn crypt_table() -> (t: Vec<u32>)
    ensures
        t@.len() == 1280,
        forall|r: int, c: int| 0 <= r < 5 && 0 <= c < 256 ==> #[trigger] t@[r * 256 + c] == crypt_value(r, c),
{
    let mut t: Vec<u32> = vec![0u32; 1280];
    let mut seed: u32 = 0x0010_0001;
    let mut col: usize = 0;
    while col < 256
        invariant
            t@.len() == 1280,
            col <= 256,
            seed == storm_seed((10 * col) as nat),
            forall|r: int, c: int| 0 <= r < 5 && 0 <= c < col ==> #[trigger] t@[r * 256 + c] == crypt_value(r, c),
        decreases 256 - col,
    {
        let mut row: usize = 0;
        while row < 5
            invariant
                t@.len() == 1280,
                col < 256,
                row <= 5,
                seed == storm_seed((10 * col + 2 * row) as nat),
                forall|r: int, c: int|
                    0 <= r < 5 && 0 <= c < 256 && (c < col || (c == col && r < row)) ==> #[trigger] t@[r * 256 + c]
                        == crypt_value(r, c),
            decreases 5 - row,
        {
            proof {
                lemma_seed_bound((10 * col + 2 * row) as nat);
                lemma_seed_bound((10 * col + 2 * row + 1) as nat);
            }
            seed = (seed * 125 + 3) % 0x2A_AAAB;
            let hi = seed;
            seed = (seed * 125 + 3) % 0x2A_AAAB;
            let lo = seed;
            let idx = row * 256 + col;
            let ghost before = t@;
            t.set(idx, ((hi & 0xFFFF) << 16u32) | (lo & 0xFFFF));
            proof {
                assert(10 * col + 2 * row + 1 == 2 * (5 * col + row) + 1);
                assert forall|r: int, c: int|
                    0 <= r < 5 && 0 <= c < 256 && (c < col || (c == col && r < row + 1)) implies #[trigger] t@[r
                    * 256 + c] == crypt_value(r, c) by {
                    if r * 256 + c == idx {
                        lemma_cell_distinct(r, c, row as int, col as int);
                    } else {
                        assert(t@[r * 256 + c] == before[r * 256 + c]);
                        if c == col && r == row {
                        }
                    }
                }
            }
            row += 1;
        }
        col += 1;
    }
    t
}

/// What StormLib hashes instead of a byte of a name: ASCII letters upper-cased
/// and `/` read as `\`.
pub open spec fn storm_upper(b: u8) -> u8 {
    if 97 <= b && b <= 122 {
        (b - 32) as u8
    } else if b == 47 {
        92
    } else {
        b
    }
}

/// The two hash registers after feeding `s` through row `row` of the table.
pub open spec fn hash_state(s: Seq<u8>, row: int) -> (u32, u32)
    decreases s.len(),
{
    if s.len() == 0 {
        (0x7FED_7FED, 0xEEEE_EEEE)
    } else {
        let (seed1, seed2) = hash_state(s.drop_last(), row);
        let ch = storm_upper(s.last()) as u32;
        let next1 = crypt_value(row, ch as int) ^ wrapping_add(seed1, seed2);
        let next2 = wrapping_add(wrapping_add(wrapping_add(wrapping_add(ch, next1), seed2), seed2 << 5u32), 3);
        (next1, next2)
    }
}

/// The hash of the bytes `s` with hash type `hash_type` (a multiple of 0x100
/// naming the table row: 0 bucket, 0x100 and 0x200 the two checks, 0x300 the
/// key).
pub open spec fn storm_hash(s: Seq<u8>, hash_type: u32) -> u32 {
    hash_state(s, hash_type as int / 256).0
}

/// Whether `t` is one of the four hash types.
pub open spec fn valid_hash_type(t: u32) -> bool {
    t == 0 || t == 0x100 || t == 0x200 || t == 0x300
}

/// Hash a name with the table row selected by `hash_type`.
pub fn hash_bytes(s: &[u8], hash_type: u32) -> (h: u32)
    requires
        valid_hash_type(hash_type),
    ensures
        h == storm_hash(s@, hash_type),
{
    let t = crypt_table();
    let ghost row = hash_type as int / 256;
    assert(hash_type == row * 256);
    let mut seed1: u32 = 0x7FED_7FED;
    let mut seed2: u32 = 0xEEEE_EEEE;
    let mut i: usize = 0;
    while i < s.len()
        invariant
            i <= s@.len(),
            0 <= row < 4,
            hash_type == row * 256,
            t@.len() == 1280,
            forall|r: int, c: int| 0 <= r < 5 && 0 <= c < 256 ==> #[trigger] t@[r * 256 + c] == crypt_value(r, c),
            (seed1, seed2) == hash_state(s@.take(i as int), row),
        decreases s@.len() - i,
    {
        let b = s[i];
        let ch: u8 = if b >= 97 && b <= 122 {
            b - 32
        } else if b == 47 {
            92
        } else {
            b
        };
        let ch = ch as u32;
        let v = t[hash_type as usize + ch as usize];
        assert(v == crypt_value(row, ch as int)) by {
            assert(t@[row * 256 + ch as int] == crypt_value(row, ch as int));
        }
        let next1 = v ^ seed1.wrapping_add(seed2);
        let next2 = ch.wrapping_add(next1).wrapping_add(seed2).wrapping_add(seed2 << 5u32).wrapping_add(3);
        seed1 = next1;
        seed2 = next2;
        proof {
            assert(s@.take(i + 1).drop_last() =~= s@.take(i as int));
        }
        i += 1;
    }
    proof {
        assert(s@.take(i as int) =~= s@);
    }
    seed1
}

/// Hash a file or table name, byte by byte, as `hash_bytes` does.
pub fn hash_string(name: &str, hash_type: u32) -> (h: u32)
    requires
        valid_hash_type(hash_type),
    ensures
        h == storm_hash(name.spec_bytes(), hash_type),
{
    hash_bytes(name.as_bytes(), hash_type)
}

/// One step of the cipher on a word, from the key and seed before it: the
/// output word and the key and seed after it. When decrypting, the seed is fed
/// with the output (the plaintext); when encrypting, with the input.
pub open spec fn crypt_step(key: u32, seed: u32, word: u32, decrypting: bool) -> (u32, u32, u32) {
    let seed1 = wrapping_add(seed, crypt_value(4, (key & 0xFF) as int));
    let out = word ^ wrapping_add(key, seed1);
    let plain = if decrypting { out } else { word };
    let next_key = wrapping_add((!key) << 21u32, 0x1111_1111) | (key >> 11u32);
    let next_seed = wrapping_add(wrapping_add(wrapping_add(plain, seed1), seed1 << 5u32), 3);
    (out, next_key, next_seed)
}

/// The cipher over a run of words: the output words, and the key and seed
/// after the last one.
pub open spec fn crypt_run(w: Seq<u32>, key: u32, decrypting: bool) -> (Seq<u32>, u32, u32)
    decreases w.len(),
{
    if w.len() == 0 {
        (Seq::empty(), key, 0xEEEE_EEEE)
    } else {
        let (out, k, s) = crypt_run(w.drop_last(), key, decrypting);
        let (x, k2, s2) = crypt_step(k, s, w.last(), decrypting);
        (out.push(x), k2, s2)
    }
}

/// The little-endian words of `data`; a trailing partial word is not one.
pub open spec fn words_of(data: Seq<u8>) -> Seq<u32> {
    Seq::new(data.len() / 4, |i: int| crate::reader::le_u32(data.subrange(4 * i, 4 * i + 4)))
}

/// `data` with every whole word replaced by the matching word of `w`; the
/// bytes after the last whole word are kept.
pub open spec fn with_words(data: Seq<u8>, w: Seq<u32>) -> Seq<u8> {
    Seq::new(
        data.len(),
        |i: int|
            if i < 4 * w.len() {
                crate::reader::le_bytes(w[i / 4])[i % 4]
            } else {
                data[i]
            },
    )
}

/// Decryption of `data` under `key`.
#[verifier::opaque]
pub open spec fn decrypted(data: Seq<u8>, key: u32) -> Seq<u8> {
    with_words(data, crypt_run(words_of(data), key, true).0)
}

/// Encryption of `data` under `key`.
#[verifier::opaque]
pub open spec fn encrypted(data: Seq<u8>, key: u32) -> Seq<u8> {
    with_words(data, crypt_run(words_of(data), key, false).0)
}

proof fn lemma_crypt_run_len(w: Seq<u32>, key: u32, decrypting: bool)
    ensures
        crypt_run(w, key, decrypting).0.len() == w.len(),
    decreases w.len(),
{
    if w.len() > 0 {
        lemma_crypt_run_len(w.drop_last(), key, decrypting);
    }
}

proof fn lemma_with_words_prefix(input: Seq<u8>, prev: Seq<u32>, j: int)
    requires
        4 * prev.len() <= j < input.len(),
    ensures
        with_words(input, prev)[j] == input[j],
{
}

proof fn lemma_with_words_push(input: Seq<u8>, prev: Seq<u32>, out: u32, after: Seq<u8>)
    requires
        4 * prev.len() + 4 <= input.len(),
        after.len() == input.len(),
        forall|j: int| 0 <= j < 4 * prev.len() ==> after[j] == with_words(input, prev)[j],
        forall|j: int| 4 * prev.len() + 4 <= j < input.len() ==> after[j] == input[j],
        after[4 * prev.len() as int] == (out % 256) as u8,
        after[4 * prev.len() as int + 1] == ((out / 256) % 256) as u8,
        after[4 * prev.len() as int + 2] == ((out / 65536) % 256) as u8,
        after[4 * prev.len() as int + 3] == (out / 16777216) as u8,
    ensures
        after == with_words(input, prev.push(out)),
{
    let next = prev.push(out);
    let n = prev.len() as int;
    assert forall|j: int| 0 <= j < input.len() implies #[trigger] after[j] == with_words(input, next)[j] by {
        if j < 4 * n {
            assert(j / 4 < n);
            assert(next[j / 4] == prev[j / 4]);
        } else if j < 4 * n + 4 {
            assert(j / 4 == n);
            assert(j % 4 == j - 4 * n);
        }
    }
    assert(after =~= with_words(input, next));
}

proof fn lemma_crypt_run_step(w: Seq<u32>, i: int, key: u32, decrypting: bool)
    requires
        0 <= i < w.len(),
    ensures
        ({
            let r = crypt_run(w.take(i), key, decrypting);
            let st = crypt_step(r.1, r.2, w[i], decrypting);
            crypt_run(w.take(i + 1), key, decrypting) == (r.0.push(st.0), st.1, st.2)
        }),
{
    assert(w.take(i + 1).drop_last() =~= w.take(i));
}

fn cipher(data: &mut Vec<u8>, key: u32, decrypting: bool)
    ensures
        final(data)@ == with_words(old(data)@, crypt_run(words_of(old(data)@), key, decrypting).0),
{
    let t = crypt_table();
    let ghost input = data@;
    let ghost w = words_of(input);
    let ghost key0 = key;
    let n = data.len() / 4;
    let mut key = key;
    let mut seed: u32 = 0xEEEE_EEEE;
    let mut i: usize = 0;
    proof {
        assert(data@ =~= with_words(input, Seq::<u32>::empty()));
    }
    while i < n
        invariant
            n == input.len() / 4,
            i <= n,
            w == words_of(input),
            data@.len() == input.len(),
            t@.len() == 1280,
            forall|r: int, c: int| 0 <= r < 5 && 0 <= c < 256 ==> #[trigger] t@[r * 256 + c] == crypt_value(r, c),
            crypt_run(w.take(i as int), key0, decrypting).0.len() == i,
            crypt_run(w.take(i as int), key0, decrypting).1 == key,
            crypt_run(w.take(i as int), key0, decrypting).2 == seed,
            data@ == with_words(input, crypt_run(w.take(i as int), key0, decrypting).0),
        decreases n - i,
    {
        let ghost before = data@;
        let ghost prev = crypt_run(w.take(i as int), key0, decrypting).0;
        let len = data.len();
        assert(4 * i + 4 <= len);
        let p = 4 * i;
        proof {
            lemma_with_words_prefix(input, prev, p as int);
            lemma_with_words_prefix(input, prev, p + 1);
            lemma_with_words_prefix(input, prev, p + 2);
            lemma_with_words_prefix(input, prev, p + 3);
        }
        let word = (data[p] as u32) + 256 * (data[p + 1] as u32) + 65536 * (data[p + 2] as u32) + 16777216 * (
        data[p + 3] as u32);
        assert(word == w[i as int]) by {
            let b = input.subrange(4 * i, 4 * i + 4);
            assert(b[0] == input[p as int] && b[1] == input[p + 1] && b[2] == input[p + 2] && b[3] == input[p + 3]);
        }
        let k = (key & 0xFF) as usize;
        assert(k < 256) by (bit_vector)
            requires
                k == (key & 0xFF) as usize,
        ;
        let v = t[1024 + k];
        assert(v == crypt_value(4, k as int)) by {
            assert(t@[4 * 256 + k as int] == crypt_value(4, k as int));
        }
        let ghost old_key = key;
        let ghost old_seed = seed;
        let seed1 = seed.wrapping_add(v);
        let out = word ^ key.wrapping_add(seed1);
        let plain = if decrypting {
            out
        } else {
            word
        };
        key = ((!key) << 21u32).wrapping_add(0x1111_1111) | (key >> 11u32);
        seed = plain.wrapping_add(seed1).wrapping_add(seed1 << 5u32).wrapping_add(3);
        assert(crypt_step(old_key, old_seed, word, decrypting) == (out, key, seed));
        data.set(p, (out % 256) as u8);
        data.set(p + 1, ((out / 256) % 256) as u8);
        data.set(p + 2, ((out / 65536) % 256) as u8);
        data.set(p + 3, (out / 16777216) as u8);
        proof {
            lemma_crypt_run_step(w, i as int, key0, decrypting);
            lemma_with_words_push(input, prev, out, data@);
        }
        i += 1;
    }
    proof {
        assert(w.take(i as int) =~= w);
    }
}

/// Decrypt `data` in place under `key`. Only whole words are touched; a
/// trailing partial word, or a buffer shorter than one word, is left as it is.
pub fn decrypt(data: &mut Vec<u8>, key: u32)
    ensures
        final(data)@ == decrypted(old(data)@, key),
{
    cipher(data, key, true);
    proof {
        reveal(decrypted);
    }
}

/// Encrypt `data` in place under `key`, the inverse of [`decrypt`].
pub fn encrypt(data: &mut Vec<u8>, key: u32)
    ensures
        final(data)@ == encrypted(old(data)@, key),
{
    cipher(data, key, false);
    proof {
        reveal(encrypted);
    }
}

proof fn lemma_crypt_run_inverse(w: Seq<u32>, key: u32, decrypting: bool)
    ensures
        ({
            let there = crypt_run(w, key, decrypting);
            let back = crypt_run(there.0, key, !decrypting);
            back.0 == w && back.1 == there.1 && back.2 == there.2
        }),
    decreases w.len(),
{
    if w.len() > 0 {
        let there = crypt_run(w, key, decrypting);
        let prev = crypt_run(w.drop_last(), key, decrypting);
        lemma_crypt_run_inverse(w.drop_last(), key, decrypting);
        lemma_crypt_run_len(w.drop_last(), key, decrypting);
        assert(there.0.drop_last() =~= prev.0);
        let seed1 = wrapping_add(prev.2, crypt_value(4, (prev.1 & 0xFF) as int));
        let x = w.last() ^ wrapping_add(prev.1, seed1);
        assert(there.0.last() == x);
        let y = wrapping_add(prev.1, seed1);
        let z = w.last();
        assert((z ^ y) ^ y == z) by (bit_vector);
        let back_prev = crypt_run(prev.0, key, !decrypting);
        assert(back_prev.0.push(w.last()) =~= w);
    }
}

proof fn lemma_le_bytes_of_word(b: Seq<u8>)
    requires
        b.len() == 4,
    ensures
        crate::reader::le_bytes(crate::reader::le_u32(b)) == b,
{
    let x = b[0] as int + 256 * b[1] + 65536 * b[2] + 16777216 * b[3];
    assert(0 <= x < 0x1_0000_0000);
    assert(x % 256 == b[0]);
    assert((x / 256) % 256 == b[1]);
    assert((x / 65536) % 256 == b[2]);
    assert(x / 16777216 == b[3]);
    assert(crate::reader::le_bytes(crate::reader::le_u32(b)) =~= b);
}

proof fn lemma_words_of_with_words(data: Seq<u8>, w: Seq<u32>)
    requires
        w.len() == data.len() / 4,
    ensures
        words_of(with_words(data, w)) == w,
{
    let d = with_words(data, w);
    assert forall|i: int| 0 <= i < w.len() implies #[trigger] words_of(d)[i] == w[i] by {
        let b = d.subrange(4 * i, 4 * i + 4);
        crate::reader::lemma_le_roundtrip(w[i]);
        let e = crate::reader::le_bytes(w[i]);
        assert forall|k: int| 0 <= k < 4 implies b[k] == e[k] by {
            assert((4 * i + k) / 4 == i);
            assert((4 * i + k) % 4 == k);
        }
        assert(b =~= e);
    }
    assert(words_of(d) =~= w);
}

proof fn lemma_with_words_of_words(data: Seq<u8>)
    ensures
        with_words(data, words_of(data)) == data,
{
    let w = words_of(data);
    assert forall|j: int| 0 <= j < data.len() implies #[trigger] with_words(data, w)[j] == data[j] by {
        if j < 4 * w.len() {
            let i = j / 4;
            let b = data.subrange(4 * i, 4 * i + 4);
            lemma_le_bytes_of_word(b);
            assert(b[j % 4] == data[j]);
        }
    }
    assert(with_words(data, w) =~= data);
}

proof fn lemma_with_words_twice(data: Seq<u8>, v: Seq<u32>, w: Seq<u32>)
    requires
        v.len() == data.len() / 4,
        w.len() == data.len() / 4,
    ensures
        with_words(with_words(data, v), w) == with_words(data, w),
{
    assert(with_words(with_words(data, v), w) =~= with_words(data, w));
}

proof fn lemma_cipher_inverse(data: Seq<u8>, key: u32, decrypting: bool)
    ensures
        with_words(
            with_words(data, crypt_run(words_of(data), key, decrypting).0),
            crypt_run(words_of(with_words(data, crypt_run(words_of(data), key, decrypting).0)), key, !decrypting).0,
        ) == data,
{
    let w = words_of(data);
    let there = crypt_run(w, key, decrypting).0;
    lemma_crypt_run_len(w, key, decrypting);
    lemma_words_of_with_words(data, there);
    lemma_crypt_run_inverse(w, key, decrypting);
    lemma_with_words_twice(data, there, w);
    lemma_with_words_of_words(data);
}

/// Decrypting with the key that encrypted gives the plaintext back.
pub proof fn lemma_decrypt_undoes_encrypt(data: Seq<u8>, key: u32)
    ensures
        decrypted(encrypted(data, key), key) == data,
{
    reveal(decrypted);
    reveal(encrypted);
    lemma_cipher_inverse(data, key, false);
}

/// Encrypting with the key that decrypted gives the ciphertext back.
pub proof fn lemma_encrypt_undoes_decrypt(data: Seq<u8>, key: u32)
    ensures
        encrypted(decrypted(data, key), key) == data,
{
    reveal(decrypted);
    reveal(encrypted);
    lemma_cipher_inverse(data, key, true);
}

/// The cipher keeps the length of what it is given.
pub proof fn lemma_cipher_keeps_length(data: Seq<u8>, key: u32)
    ensures
        decrypted(data, key).len() == data.len(),
        encrypted(data, key).len() == data.len(),
{
    reveal(decrypted);
    reveal(encrypted);
}

/// The bytes past the last whole word pass through the cipher untouched, so a
/// buffer shorter than one word comes out as it went in.
pub proof fn lemma_cipher_keeps_tail(data: Seq<u8>, key: u32, i: int)
    requires
        4 * (data.len() / 4) <= i < data.len(),
    ensures
        decrypted(data, key)[i] == data[i],
        encrypted(data, key)[i] == data[i],
{
    reveal(decrypted);
    reveal(encrypted);
    lemma_crypt_run_len(words_of(data), key, true);
    lemma_crypt_run_len(words_of(data), key, false);
}

/// A buffer shorter than one word is neither encrypted nor decrypted.
pub proof fn lemma_short_buffers_pass_through(data: Seq<u8>, key: u32)
    requires
        data.len() < 4,
    ensures
        decrypted(data, key) == data,
        encrypted(data, key) == data,
{
    lemma_cipher_keeps_length(data, key);
    assert forall|i: int| 0 <= i < data.len() implies decrypted(data, key)[i] == data[i] && encrypted(data, key)[i]
        == data[i] by {
        lemma_cipher_keeps_tail(data, key, i);
    }
    assert(decrypted(data, key) =~= data);
    assert(encrypted(data, key) =~= data);
}

proof fn lemma_hash_state_fold(a: Seq<u8>, b: Seq<u8>, row: int)
    requires
        a.len() == b.len(),
        forall|i: int| 0 <= i < a.len() ==> storm_upper(#[trigger] a[i]) == storm_upper(b[i]),
    ensures
        hash_state(a, row) == hash_state(b, row),
    decreases a.len(),
{
    if a.len() > 0 {
        assert forall|i: int| 0 <= i < a.drop_last().len() implies storm_upper(#[trigger] a.drop_last()[i])
            == storm_upper(b.drop_last()[i]) by {
            assert(storm_upper(a[i]) == storm_upper(b[i]));
        }
        lemma_hash_state_fold(a.drop_last(), b.drop_last(), row);
        assert(storm_upper(a[a.len() - 1]) == storm_upper(b[b.len() - 1]));
    }
}

/// Names hash alike when they differ only in the case of ASCII letters or in
/// `/` against `\`: StormLib looks files up without regard to either.
pub proof fn lemma_hash_ignores_case_and_slash(a: Seq<u8>, b: Seq<u8>, hash_type: u32)
    requires
        a.len() == b.len(),
        forall|i: int| 0 <= i < a.len() ==> storm_upper(#[trigger] a[i]) == storm_upper(b[i]),
    ensures
        storm_hash(a, hash_type) == storm_hash(b, hash_type),
{
    lemma_hash_state_fold(a, b, hash_type as int / 256);
}

} // verus!
