//! Multi-key, case-insensitive, override-aware comparison of entries.
//!
//! Keys are evaluated left to right; the first key that does not compare
//! equal decides. String-sequence keys compare case-insensitively, using the
//! sort-order override sequence in place of the display sequence when one is
//! present. Scalar keys compare directly. A global reverse flag inverts the
//! final result once, after the whole key chain.

use core::cmp::Ordering;
use vstd::prelude::*;

use crate::info::EntryV;
use crate::info::Entry;
use crate::info::Track;
use crate::text::lower_of;
use crate::text::lowercase;

verus! {

/// A property to sort by.
#[derive(Debug, Copy, Clone, PartialEq, Eq, Structural)]
pub enum SortBy {
    /// Sort by file name.
    FileName,
    /// Sort by file size.
    FileSize,
    /// Sort by track title.
    Title,
    /// Sort by artist.
    Artist,
    /// Sort by album.
    Album,
    /// Sort by year.
    Year,
    /// Sort by track number.
    Track,
    /// Sort by genre.
    Genre,
}

/// The inverse of an ordering.
pub open spec fn flip(o: Ordering) -> Ordering {
    match o {
        Ordering::Less => Ordering::Greater,
        Ordering::Equal => Ordering::Equal,
        Ordering::Greater => Ordering::Less,
    }
}

/// Lexicographic order on byte sequences: position by position, a missing
/// byte before any byte.
pub open spec fn ord_of_bytes(a: Seq<u8>, b: Seq<u8>) -> Ordering
    decreases a.len(),
{
    if a.len() == 0 && b.len() == 0 {
        Ordering::Equal
    } else if a.len() == 0 {
        Ordering::Less
    } else if b.len() == 0 {
        Ordering::Greater
    } else if a[0] < b[0] {
        Ordering::Less
    } else if b[0] < a[0] {
        Ordering::Greater
    } else {
        ord_of_bytes(a.drop_first(), b.drop_first())
    }
}

/// Lexicographic order on character sequences by scalar value, as strings
/// compare in the standard library.
pub open spec fn ord_of_chars(a: Seq<char>, b: Seq<char>) -> Ordering
    decreases a.len(),
{
    if a.len() == 0 && b.len() == 0 {
        Ordering::Equal
    } else if a.len() == 0 {
        Ordering::Less
    } else if b.len() == 0 {
        Ordering::Greater
    } else if (a[0] as u32) < (b[0] as u32) {
        Ordering::Less
    } else if (b[0] as u32) < (a[0] as u32) {
        Ordering::Greater
    } else {
        ord_of_chars(a.drop_first(), b.drop_first())
    }
}

/// Order on two optional unsigned values: absent sorts before present.
pub open spec fn ord_of_opt_u32(a: Option<u32>, b: Option<u32>) -> Ordering {
    match (a, b) {
        (None, None) => Ordering::Equal,
        (None, Some(_)) => Ordering::Less,
        (Some(_), None) => Ordering::Greater,
        (Some(x), Some(y)) => if x < y {
            Ordering::Less
        } else if y < x {
            Ordering::Greater
        } else {
            Ordering::Equal
        },
    }
}

/// Order on two optional signed values: absent sorts before present.
pub open spec fn ord_of_opt_i32(a: Option<i32>, b: Option<i32>) -> Ordering {
    match (a, b) {
        (None, None) => Ordering::Equal,
        (None, Some(_)) => Ordering::Less,
        (Some(_), None) => Ordering::Greater,
        (Some(x), Some(y)) => if x < y {
            Ordering::Less
        } else if y < x {
            Ordering::Greater
        } else {
            Ordering::Equal
        },
    }
}

/// Order on two sizes.
pub open spec fn ord_of_u64(a: u64, b: u64) -> Ordering {
    if a < b {
        Ordering::Less
    } else if b < a {
        Ordering::Greater
    } else {
        Ordering::Equal
    }
}

/// Order on tracks: by number, then by total, absent before present at each
/// position.
pub open spec fn ord_of_track(a: Track, b: Track) -> Ordering {
    match ord_of_opt_u32(a.number, b.number) {
        Ordering::Equal => ord_of_opt_u32(a.total, b.total),
        o => o,
    }
}

/// Each string of a sequence replaced by its case-folded form.
pub open spec fn fold_strings(v: Seq<Seq<char>>) -> Seq<Seq<char>> {
    v.map_values(|s: Seq<char>| lower_of(s))
}

/// Lexicographic order on sequences of strings: element by element, then by
/// length.
pub open spec fn ord_of_string_seqs(a: Seq<Seq<char>>, b: Seq<Seq<char>>) -> Ordering
    decreases a.len(),
{
    if a.len() == 0 && b.len() == 0 {
        Ordering::Equal
    } else if a.len() == 0 {
        Ordering::Less
    } else if b.len() == 0 {
        Ordering::Greater
    } else {
        match ord_of_chars(a[0], b[0]) {
            Ordering::Equal => ord_of_string_seqs(a.drop_first(), b.drop_first()),
            o => o,
        }
    }
}

/// The sequence a string-valued key actually compares: the sort-order
/// override when present, the display values otherwise.
pub open spec fn sort_strings(
    vals: Seq<Seq<char>>,
    sort_order: Option<Seq<Seq<char>>>,
) -> Seq<Seq<char>> {
    match sort_order {
        Some(v) => v,
        None => vals,
    }
}

/// Case-insensitive, override-aware order on two string-valued fields.
pub open spec fn ord_of_string_field(
    a_vals: Seq<Seq<char>>,
    a_sort: Option<Seq<Seq<char>>>,
    b_vals: Seq<Seq<char>>,
    b_sort: Option<Seq<Seq<char>>>,
) -> Ordering {
    ord_of_string_seqs(
        fold_strings(sort_strings(a_vals, a_sort)),
        fold_strings(sort_strings(b_vals, b_sort)),
    )
}

/// Order on two entries under a single sort key.
pub open spec fn ord_of_key(a: EntryV, b: EntryV, key: SortBy) -> Ordering {
    match key {
        SortBy::FileName => ord_of_bytes(a.name, b.name),
        SortBy::FileSize => ord_of_u64(a.size, b.size),
        SortBy::Title => ord_of_string_field(
            a.title,
            a.title_sort_order,
            b.title,
            b.title_sort_order,
        ),
        SortBy::Artist => ord_of_string_field(
            a.artist,
            a.artist_sort_order,
            b.artist,
            b.artist_sort_order,
        ),
        SortBy::Album => ord_of_string_field(
            a.album,
            a.album_sort_order,
            b.album,
            b.album_sort_order,
        ),
        SortBy::Year => ord_of_opt_i32(a.year, b.year),
        SortBy::Track => ord_of_track(a.track, b.track),
        SortBy::Genre => ord_of_string_field(a.genre, None, b.genre, None),
    }
}

/// Order on two entries under an ordered key sequence: the first key that
/// does not compare equal decides; an empty key sequence yields equal.
pub open spec fn ord_of_keys(a: EntryV, b: EntryV, keys: Seq<SortBy>) -> Ordering
    decreases keys.len(),
{
    if keys.len() == 0 {
        Ordering::Equal
    } else {
        match ord_of_key(a, b, keys[0]) {
            Ordering::Equal => ord_of_keys(a, b, keys.drop_first()),
            o => o,
        }
    }
}

/// The complete sort order: the key chain's result, inverted once when the
/// reverse flag is set.
pub open spec fn ord_of_entries(a: EntryV, b: EntryV, keys: Seq<SortBy>, reverse: bool) -> Ordering {
    if reverse {
        flip(ord_of_keys(a, b, keys))
    } else {
        ord_of_keys(a, b, keys)
    }
}

proof fn lemma_ord_of_bytes_refl(a: Seq<u8>)
    ensures
        ord_of_bytes(a, a) == Ordering::Equal,
    decreases a.len(),
{
    if a.len() > 0 {
        lemma_ord_of_bytes_refl(a.drop_first());
    }
}

proof fn lemma_ord_of_bytes_antisym(a: Seq<u8>, b: Seq<u8>)
    ensures
        ord_of_bytes(b, a) == flip(ord_of_bytes(a, b)),
    decreases a.len(),
{
    if a.len() > 0 && b.len() > 0 && a[0] == b[0] {
        lemma_ord_of_bytes_antisym(a.drop_first(), b.drop_first());
    }
}

proof fn lemma_ord_of_bytes_trans(a: Seq<u8>, b: Seq<u8>, c: Seq<u8>)
    ensures
        ord_of_bytes(a, b) == Ordering::Equal && ord_of_bytes(b, c) == Ordering::Equal
            ==> ord_of_bytes(a, c) == Ordering::Equal,
        ord_of_bytes(a, b) == Ordering::Less && ord_of_bytes(b, c) != Ordering::Greater
            ==> ord_of_bytes(a, c) == Ordering::Less,
        ord_of_bytes(a, b) != Ordering::Greater && ord_of_bytes(b, c) == Ordering::Less
            ==> ord_of_bytes(a, c) == Ordering::Less,
    decreases a.len() + b.len() + c.len(),
{
    if a.len() > 0 && b.len() > 0 && c.len() > 0 {
        lemma_ord_of_bytes_trans(a.drop_first(), b.drop_first(), c.drop_first());
    }
}

proof fn lemma_ord_of_chars_refl(a: Seq<char>)
    ensures
        ord_of_chars(a, a) == Ordering::Equal,
    decreases a.len(),
{
    if a.len() > 0 {
        lemma_ord_of_chars_refl(a.drop_first());
    }
}

proof fn lemma_ord_of_chars_antisym(a: Seq<char>, b: Seq<char>)
    ensures
        ord_of_chars(b, a) == flip(ord_of_chars(a, b)),
    decreases a.len(),
{
    if a.len() > 0 && b.len() > 0 && a[0] as u32 == b[0] as u32 {
        lemma_ord_of_chars_antisym(a.drop_first(), b.drop_first());
    }
}

proof fn lemma_ord_of_chars_trans(a: Seq<char>, b: Seq<char>, c: Seq<char>)
    ensures
        ord_of_chars(a, b) == Ordering::Equal && ord_of_chars(b, c) == Ordering::Equal
            ==> ord_of_chars(a, c) == Ordering::Equal,
        ord_of_chars(a, b) == Ordering::Less && ord_of_chars(b, c) != Ordering::Greater
            ==> ord_of_chars(a, c) == Ordering::Less,
        ord_of_chars(a, b) != Ordering::Greater && ord_of_chars(b, c) == Ordering::Less
            ==> ord_of_chars(a, c) == Ordering::Less,
    decreases a.len() + b.len() + c.len(),
{
    if a.len() > 0 && b.len() > 0 && c.len() > 0 {
        lemma_ord_of_chars_trans(a.drop_first(), b.drop_first(), c.drop_first());
    }
}

proof fn lemma_ord_of_string_seqs_refl(a: Seq<Seq<char>>)
    ensures
        ord_of_string_seqs(a, a) == Ordering::Equal,
    decreases a.len(),
{
    if a.len() > 0 {
        lemma_ord_of_chars_refl(a[0]);
        lemma_ord_of_string_seqs_refl(a.drop_first());
    }
}

proof fn lemma_ord_of_string_seqs_antisym(a: Seq<Seq<char>>, b: Seq<Seq<char>>)
    ensures
        ord_of_string_seqs(b, a) == flip(ord_of_string_seqs(a, b)),
    decreases a.len(),
{
    if a.len() > 0 && b.len() > 0 {
        lemma_ord_of_chars_antisym(a[0], b[0]);
        if ord_of_chars(a[0], b[0]) == Ordering::Equal {
            lemma_ord_of_string_seqs_antisym(a.drop_first(), b.drop_first());
        }
    }
}

proof fn lemma_ord_of_string_seqs_trans(a: Seq<Seq<char>>, b: Seq<Seq<char>>, c: Seq<Seq<char>>)
    ensures
        ord_of_string_seqs(a, b) == Ordering::Equal && ord_of_string_seqs(b, c) == Ordering::Equal
            ==> ord_of_string_seqs(a, c) == Ordering::Equal,
        ord_of_string_seqs(a, b) == Ordering::Less && ord_of_string_seqs(b, c) != Ordering::Greater
            ==> ord_of_string_seqs(a, c) == Ordering::Less,
        ord_of_string_seqs(a, b) != Ordering::Greater && ord_of_string_seqs(b, c) == Ordering::Less
            ==> ord_of_string_seqs(a, c) == Ordering::Less,
    decreases a.len() + b.len() + c.len(),
{
    if a.len() > 0 && b.len() > 0 && c.len() > 0 {
        lemma_ord_of_chars_trans(a[0], b[0], c[0]);
        lemma_ord_of_string_seqs_trans(a.drop_first(), b.drop_first(), c.drop_first());
    }
}

proof fn lemma_ord_of_key_refl(a: EntryV, key: SortBy)
    ensures
        ord_of_key(a, a, key) == Ordering::Equal,
{
    match key {
        SortBy::FileName => lemma_ord_of_bytes_refl(a.name),
        SortBy::FileSize => {},
        SortBy::Title => lemma_ord_of_string_seqs_refl(
            fold_strings(sort_strings(a.title, a.title_sort_order)),
        ),
        SortBy::Artist => lemma_ord_of_string_seqs_refl(
            fold_strings(sort_strings(a.artist, a.artist_sort_order)),
        ),
        SortBy::Album => lemma_ord_of_string_seqs_refl(
            fold_strings(sort_strings(a.album, a.album_sort_order)),
        ),
        SortBy::Year => {},
        SortBy::Track => {},
        SortBy::Genre => lemma_ord_of_string_seqs_refl(fold_strings(a.genre)),
    }
}

proof fn lemma_ord_of_key_antisym(a: EntryV, b: EntryV, key: SortBy)
    ensures
        ord_of_key(b, a, key) == flip(ord_of_key(a, b, key)),
{
    match key {
        SortBy::FileName => lemma_ord_of_bytes_antisym(a.name, b.name),
        SortBy::FileSize => {},
        SortBy::Title => lemma_ord_of_string_seqs_antisym(
            fold_strings(sort_strings(a.title, a.title_sort_order)),
            fold_strings(sort_strings(b.title, b.title_sort_order)),
        ),
        SortBy::Artist => lemma_ord_of_string_seqs_antisym(
            fold_strings(sort_strings(a.artist, a.artist_sort_order)),
            fold_strings(sort_strings(b.artist, b.artist_sort_order)),
        ),
        SortBy::Album => lemma_ord_of_string_seqs_antisym(
            fold_strings(sort_strings(a.album, a.album_sort_order)),
            fold_strings(sort_strings(b.album, b.album_sort_order)),
        ),
        SortBy::Year => {},
        SortBy::Track => {},
        SortBy::Genre => lemma_ord_of_string_seqs_antisym(
            fold_strings(a.genre),
            fold_strings(b.genre),
        ),
    }
}

proof fn lemma_ord_of_key_trans(a: EntryV, b: EntryV, c: EntryV, key: SortBy)
    ensures
        ord_of_key(a, b, key) == Ordering::Equal && ord_of_key(b, c, key) == Ordering::Equal
            ==> ord_of_key(a, c, key) == Ordering::Equal,
        ord_of_key(a, b, key) == Ordering::Less && ord_of_key(b, c, key) != Ordering::Greater
            ==> ord_of_key(a, c, key) == Ordering::Less,
        ord_of_key(a, b, key) != Ordering::Greater && ord_of_key(b, c, key) == Ordering::Less
            ==> ord_of_key(a, c, key) == Ordering::Less,
{
    match key {
        SortBy::FileName => lemma_ord_of_bytes_trans(a.name, b.name, c.name),
        SortBy::FileSize => {},
        SortBy::Title => lemma_ord_of_string_seqs_trans(
            fold_strings(sort_strings(a.title, a.title_sort_order)),
            fold_strings(sort_strings(b.title, b.title_sort_order)),
            fold_strings(sort_strings(c.title, c.title_sort_order)),
        ),
        SortBy::Artist => lemma_ord_of_string_seqs_trans(
            fold_strings(sort_strings(a.artist, a.artist_sort_order)),
            fold_strings(sort_strings(b.artist, b.artist_sort_order)),
            fold_strings(sort_strings(c.artist, c.artist_sort_order)),
        ),
        SortBy::Album => lemma_ord_of_string_seqs_trans(
            fold_strings(sort_strings(a.album, a.album_sort_order)),
            fold_strings(sort_strings(b.album, b.album_sort_order)),
            fold_strings(sort_strings(c.album, c.album_sort_order)),
        ),
        SortBy::Year => {},
        SortBy::Track => {},
        SortBy::Genre => lemma_ord_of_string_seqs_trans(
            fold_strings(a.genre),
            fold_strings(b.genre),
            fold_strings(c.genre),
        ),
    }
}

/// The entry comparison is reflexive-equal: under any key sequence, an entry
/// compares equal to itself.
pub proof fn lemma_compare_reflexive(a: EntryV, keys: Seq<SortBy>)
    ensures
        ord_of_keys(a, a, keys) == Ordering::Equal,
    decreases keys.len(),
{
    if keys.len() > 0 {
        lemma_ord_of_key_refl(a, keys[0]);
        lemma_compare_reflexive(a, keys.drop_first());
    }
}

/// The entry comparison is antisymmetric: under any key sequence, swapping
/// the two entries inverts the result.
pub proof fn lemma_compare_antisymmetric(a: EntryV, b: EntryV, keys: Seq<SortBy>)
    ensures
        ord_of_keys(b, a, keys) == flip(ord_of_keys(a, b, keys)),
    decreases keys.len(),
{
    if keys.len() > 0 {
        lemma_ord_of_key_antisym(a, b, keys[0]);
        if ord_of_key(a, b, keys[0]) == Ordering::Equal {
            lemma_compare_antisymmetric(a, b, keys.drop_first());
        }
    }
}

/// The entry comparison is transitive: under any key sequence, equality
/// chains to equality, and a strictly smaller entry stays strictly smaller
/// across an entry that is no greater.
pub proof fn lemma_compare_transitive(a: EntryV, b: EntryV, c: EntryV, keys: Seq<SortBy>)
    ensures
        ord_of_keys(a, b, keys) == Ordering::Equal && ord_of_keys(b, c, keys) == Ordering::Equal
            ==> ord_of_keys(a, c, keys) == Ordering::Equal,
        ord_of_keys(a, b, keys) == Ordering::Less && ord_of_keys(b, c, keys) != Ordering::Greater
            ==> ord_of_keys(a, c, keys) == Ordering::Less,
        ord_of_keys(a, b, keys) != Ordering::Greater && ord_of_keys(b, c, keys) == Ordering::Less
            ==> ord_of_keys(a, c, keys) == Ordering::Less,
    decreases keys.len(),
{
    if keys.len() > 0 {
        lemma_ord_of_key_trans(a, b, c, keys[0]);
        lemma_ord_of_key_antisym(a, b, keys[0]);
        lemma_ord_of_key_antisym(b, c, keys[0]);
        lemma_ord_of_key_antisym(a, c, keys[0]);
        lemma_compare_transitive(a, b, c, keys.drop_first());
    }
}

/// The reverse flag inverts the complete result of the key chain, once: it
/// does not reverse the individual keys.
pub proof fn lemma_reverse_inverts(a: EntryV, b: EntryV, keys: Seq<SortBy>)
    ensures
        ord_of_entries(a, b, keys, true) == flip(ord_of_entries(a, b, keys, false)),
{
}

/// Compares two byte strings lexicographically.
pub(crate) fn cmp_bytes(a: &Vec<u8>, b: &Vec<u8>) -> (r: Ordering)
    ensures
        r == ord_of_bytes(a@, b@),
{
    proof {
        assert(a@.skip(0) =~= a@);
        assert(b@.skip(0) =~= b@);
    }
    let mut i: usize = 0;
    loop
        invariant
            i <= a.len(),
            i <= b.len(),
            ord_of_bytes(a@, b@) == ord_of_bytes(a@.skip(i as int), b@.skip(i as int)),
        decreases a.len() - i,
    {
        if i == a.len() && i == b.len() {
            return Ordering::Equal;
        } else if i == a.len() {
            return Ordering::Less;
        } else if i == b.len() {
            return Ordering::Greater;
        } else if a[i] < b[i] {
            return Ordering::Less;
        } else if b[i] < a[i] {
            return Ordering::Greater;
        }
        proof {
            assert(a@.skip(i as int).drop_first() =~= a@.skip(i + 1));
            assert(b@.skip(i as int).drop_first() =~= b@.skip(i + 1));
        }
        i = i + 1;
    }
}

/// Compares two strings by character scalar value.
fn cmp_chars(a: &str, b: &str) -> (r: Ordering)
    ensures
        r == ord_of_chars(a@, b@),
{
    proof {
        assert(a@.skip(0) =~= a@);
        assert(b@.skip(0) =~= b@);
    }
    let a_len = a.unicode_len();
    let b_len = b.unicode_len();
    let mut i: usize = 0;
    loop
        invariant
            i <= a_len,
            i <= b_len,
            a_len == a@.len(),
            b_len == b@.len(),
            ord_of_chars(a@, b@) == ord_of_chars(a@.skip(i as int), b@.skip(i as int)),
        decreases a_len - i,
    {
        if i == a_len && i == b_len {
            return Ordering::Equal;
        } else if i == a_len {
            return Ordering::Less;
        } else if i == b_len {
            return Ordering::Greater;
        }
        let ca = a.get_char(i) as u32;
        let cb = b.get_char(i) as u32;
        if ca < cb {
            return Ordering::Less;
        } else if cb < ca {
            return Ordering::Greater;
        }
        proof {
            assert(a@.skip(i as int).drop_first() =~= a@.skip(i + 1));
            assert(b@.skip(i as int).drop_first() =~= b@.skip(i + 1));
        }
        i = i + 1;
    }
}

/// Compares two optional track counts: absent sorts before present.
fn cmp_opt_u32(a: &Option<u32>, b: &Option<u32>) -> (r: Ordering)
    ensures
        r == ord_of_opt_u32(*a, *b),
{
    match (a, b) {
        (None, None) => Ordering::Equal,
        (None, Some(_)) => Ordering::Less,
        (Some(_), None) => Ordering::Greater,
        (Some(x), Some(y)) => if x < y {
            Ordering::Less
        } else if y < x {
            Ordering::Greater
        } else {
            Ordering::Equal
        },
    }
}

/// Compares two optional years: absent sorts before present.
fn cmp_opt_i32(a: &Option<i32>, b: &Option<i32>) -> (r: Ordering)
    ensures
        r == ord_of_opt_i32(*a, *b),
{
    match (a, b) {
        (None, None) => Ordering::Equal,
        (None, Some(_)) => Ordering::Less,
        (Some(_), None) => Ordering::Greater,
        (Some(x), Some(y)) => if x < y {
            Ordering::Less
        } else if y < x {
            Ordering::Greater
        } else {
            Ordering::Equal
        },
    }
}

/// Compares two file sizes.
fn cmp_u64(a: u64, b: u64) -> (r: Ordering)
    ensures
        r == ord_of_u64(a, b),
{
    if a < b {
        Ordering::Less
    } else if b < a {
        Ordering::Greater
    } else {
        Ordering::Equal
    }
}

/// Compares two tracks by number, then by total.
fn cmp_track(a: &Track, b: &Track) -> (r: Ordering)
    ensures
        r == ord_of_track(*a, *b),
{
    match cmp_opt_u32(&a.number, &b.number) {
        Ordering::Equal => cmp_opt_u32(&a.total, &b.total),
        o => o,
    }
}

/// Compares two string lists element-wise after case folding each element,
/// then by length.
fn cmp_folded(a: &Vec<String>, b: &Vec<String>) -> (r: Ordering)
    ensures
        r == ord_of_string_seqs(fold_strings(a.deep_view()), fold_strings(b.deep_view())),
{
    let ghost fa = fold_strings(a.deep_view());
    let ghost fb = fold_strings(b.deep_view());
    proof {
        assert(fa.skip(0) =~= fa);
        assert(fb.skip(0) =~= fb);
    }
    let mut i: usize = 0;
    loop
        invariant
            i <= a.len(),
            i <= b.len(),
            fa == fold_strings(a.deep_view()),
            fb == fold_strings(b.deep_view()),
            fa.len() == a@.len(),
            fb.len() == b@.len(),
            ord_of_string_seqs(fa, fb) == ord_of_string_seqs(
                fa.skip(i as int),
                fb.skip(i as int),
            ),
        decreases a.len() - i,
    {
        if i == a.len() && i == b.len() {
            return Ordering::Equal;
        } else if i == a.len() {
            return Ordering::Less;
        } else if i == b.len() {
            return Ordering::Greater;
        }
        let la = lowercase(a[i].as_str());
        let lb = lowercase(b[i].as_str());
        match cmp_chars(la.as_str(), lb.as_str()) {
            Ordering::Equal => {
                proof {
                    assert(fa.skip(i as int).drop_first() =~= fa.skip(i + 1));
                    assert(fb.skip(i as int).drop_first() =~= fb.skip(i + 1));
                }
                i = i + 1;
            },
            o => {
                return o;
            },
        }
    }
}

/// Performs a case insensitive comparison of two string lists. The sort
/// order lists are used for the comparison instead when provided.
pub fn cmp_vec_string(
    a: &Vec<String>,
    b: &Vec<String>,
    a_sort_order: &Option<Vec<String>>,
    b_sort_order: &Option<Vec<String>>,
) -> (r: Ordering)
    ensures
        r == ord_of_string_field(
            a.deep_view(),
            a_sort_order.deep_view(),
            b.deep_view(),
            b_sort_order.deep_view(),
        ),
{
    let av = match a_sort_order {
        Some(v) => v,
        None => a,
    };
    let bv = match b_sort_order {
        Some(v) => v,
        None => b,
    };
    cmp_folded(av, bv)
}

/// Compares the given key for an `Entry`.
fn cmp_entry_key(a: &Entry, b: &Entry, key: &SortBy) -> (r: Ordering)
    ensures
        r == ord_of_key(a.deep_view(), b.deep_view(), *key),
{
    match *key {
        SortBy::FileName => cmp_bytes(&a.name, &b.name),
        SortBy::FileSize => cmp_u64(a.size, b.size),
        SortBy::Title => cmp_vec_string(&a.title, &b.title, &a.title_sort_order, &b.title_sort_order),
        SortBy::Artist => cmp_vec_string(
            &a.artist,
            &b.artist,
            &a.artist_sort_order,
            &b.artist_sort_order,
        ),
        SortBy::Album => cmp_vec_string(&a.album, &b.album, &a.album_sort_order, &b.album_sort_order),
        SortBy::Year => cmp_opt_i32(&a.year, &b.year),
        SortBy::Track => cmp_track(&a.track, &b.track),
        SortBy::Genre => cmp_vec_string(&a.genre, &b.genre, &None, &None),
    }
}

/// Compares the given keys for an `Entry` in order. If the comparison for
/// the first key yields an equal result, the next key is compared and the
/// process repeats until either the result is non-equal or all keys have
/// been compared.
pub fn cmp_entry(a: &Entry, b: &Entry, keys: &[SortBy]) -> (r: Ordering)
    ensures
        r == ord_of_keys(a.deep_view(), b.deep_view(), keys@),
{
    proof {
        assert(keys@.skip(0) =~= keys@);
    }
    let mut i: usize = 0;
    loop
        invariant
            i <= keys@.len(),
            ord_of_keys(a.deep_view(), b.deep_view(), keys@) == ord_of_keys(
                a.deep_view(),
                b.deep_view(),
                keys@.skip(i as int),
            ),
        decreases keys@.len() - i,
    {
        if i == keys.len() {
            return Ordering::Equal;
        }
        match cmp_entry_key(a, b, &keys[i]) {
            Ordering::Equal => {
                proof {
                    assert(keys@.skip(i as int).drop_first() =~= keys@.skip(i + 1));
                }
                i = i + 1;
            },
            o => {
                return o;
            },
        }
    }
}

} // verus!
