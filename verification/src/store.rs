//! The temporary blob stores: where they live, how their directories are
//! named, and when the sender refuses to create one. Also the hexadecimal
//! text of byte strings (store names, node keys).

use data_encoding::HEXLOWER;
use rand::RngExt;
use vstd::prelude::*;

verus! {

/// The lower-case hexadecimal digit of `n` (`0 <= n < 16`).
pub open spec fn hex_digit(n: int) -> char {
    if n < 10 {
        (('0' as int) + n) as char
    } else {
        (('a' as int) + n - 10) as char
    }
}

/// Lower-case hexadecimal text of `bytes`: two digits per byte, the high
/// half first.
pub open spec fn hex_lower(bytes: Seq<u8>) -> Seq<char>
    decreases bytes.len(),
{
    if bytes.len() == 0 {
        Seq::empty()
    } else {
        hex_lower(bytes.drop_last()) + seq![
            hex_digit(bytes.last() as int / 16),
            hex_digit(bytes.last() as int % 16),
        ]
    }
}

/// `data_encoding::HEXLOWER.encode`: the lower-case hexadecimal encoding
/// (symbols `0123456789abcdef`, most significant half of each byte first,
/// no padding), as its documentation gives it.
#[verifier::external_body]
fn hexlower_encode(bytes: &[u8]) -> (text: String)
    ensures
        text@ == hex_lower(bytes@),
{
    HEXLOWER.encode(bytes)
}

/// `hex::encode`: the hexadecimal encoding with lower-case digits, two per
/// byte, as its documentation gives it.
#[verifier::external_body]
fn hex_encode(bytes: &[u8]) -> (text: String)
    ensures
        text@ == hex_lower(bytes@),
{
    hex::encode(bytes)
}

/// `rand::rng().random::<[u8; 16]>()`: sixteen random bytes from the
/// thread's generator. Nothing is stated of them. It takes no input, so no
/// `requires` can rule out a panic: `rand::rng` panics only when the
/// operating system's generator fails to seed it, a failure of the machine
/// like running out of memory.
#[verifier::external_body]
fn random_suffix() -> (suffix: [u8; 16]) {
    rand::rng().random::<[u8; 16]>()
}

/// The name of a sender's store directory with the given suffix.
pub open spec fn send_store_name(suffix: Seq<u8>) -> Seq<char> {
    ".gap-send-"@ + hex_lower(suffix)
}

/// The name of a receiver's store directory for a collection whose hash
/// has the given hexadecimal text.
pub open spec fn recv_store_name(hash_hex: Seq<char>) -> Seq<char> {
    ".gap-recv-"@ + hash_hex
}

/// The sender's store directory name for `suffix`: `.gap-send-` and the
/// suffix in lower-case hexadecimal.
pub fn send_store_dir_name(suffix: &[u8; 16]) -> (name: String)
    ensures
        name@ == send_store_name(suffix@),
{
    let hex = hexlower_encode(suffix);
    let mut name = ".gap-send-".to_owned();
    name.append(hex.as_str());
    name
}

/// A fresh name for a sender's store directory, with a random suffix.
pub fn new_send_store_dir_name() -> (name: String)
    ensures
        exists|suffix: Seq<u8>| suffix.len() == 16 && name@ == send_store_name(suffix),
{
    let suffix = random_suffix();
    send_store_dir_name(&suffix)
}

/// The receiver's store directory name for a collection whose hash is
/// written `hash_hex`: `.gap-recv-` and that text.
pub fn recv_store_dir_name(hash_hex: &str) -> (name: String)
    ensures
        name@ == recv_store_name(hash_hex@),
{
    let mut name = ".gap-recv-".to_owned();
    name.append(hash_hex);
    name
}

/// The text of a node's secret key as printed for the user: its bytes in
/// lower-case hexadecimal.
pub fn secret_key_hex(key_bytes: &[u8]) -> (text: String)
    ensures
        text@ == hex_lower(key_bytes@),
{
    hex_encode(key_bytes)
}

/// Why the sender refuses to create its store.
#[derive(Debug)]
pub enum SendStoreError {
    /// The store directory already exists: another send runs from here.
    SharedTwice,
    /// The path to send is the current directory itself.
    SharesCurrentDirectory,
}

/// Whether the sender may create its store: not when the directory exists,
/// and not when the path to send is the current directory; the first of
/// the two that holds decides.
pub fn check_send_store(dir_exists: bool, source_is_cwd: bool) -> (r: Result<(), SendStoreError>)
    ensures
        dir_exists ==> r matches Err(SendStoreError::SharedTwice),
        !dir_exists && source_is_cwd ==> r matches Err(SendStoreError::SharesCurrentDirectory),
        !dir_exists && !source_is_cwd ==> r is Ok,
{
    if dir_exists {
        Err(SendStoreError::SharedTwice)
    } else if source_is_cwd {
        Err(SendStoreError::SharesCurrentDirectory)
    } else {
        Ok(())
    }
}

impl SendStoreError {
    /// The error's message; `cwd` is the current directory as displayed.
    pub fn message(&self, cwd: &str) -> (r: String)
        ensures
            match self {
                SendStoreError::SharedTwice => r@ == "can not share twice from the same directory: "@
                    + cwd@,
                SendStoreError::SharesCurrentDirectory => r@
                    == "can not share from the current directory"@,
            },
    {
        match self {
            SendStoreError::SharedTwice => {
                let mut text = "can not share twice from the same directory: ".to_owned();
                text.append(cwd);
                text
            },
            SendStoreError::SharesCurrentDirectory => "can not share from the current directory".to_owned(),
        }
    }
}

/// A hexadecimal digit names its value: different values give different
/// digits.
proof fn lemma_hex_digit_injective(a: int, b: int)
    requires
        0 <= a < 16,
        0 <= b < 16,
        hex_digit(a) == hex_digit(b),
    ensures
        a == b,
{
    assert((hex_digit(a) as int) == (if a < 10 { 48 + a } else { 87 + a }));
    assert((hex_digit(b) as int) == (if b < 10 { 48 + b } else { 87 + b }));
}

/// The text is two digits per byte.
pub proof fn lemma_hex_lower_len(bytes: Seq<u8>)
    ensures
        hex_lower(bytes).len() == 2 * bytes.len(),
    decreases bytes.len(),
{
    if bytes.len() > 0 {
        lemma_hex_lower_len(bytes.drop_last());
    }
}

/// Law: hexadecimal text is one-to-one: different byte strings get
/// different texts.
pub proof fn law_hex_lower_injective(a: Seq<u8>, b: Seq<u8>)
    requires
        hex_lower(a) == hex_lower(b),
    ensures
        a == b,
    decreases a.len(),
{
    lemma_hex_lower_len(a);
    lemma_hex_lower_len(b);
    if a.len() > 0 {
        let ta = hex_lower(a);
        let tb = hex_lower(b);
        let n = ta.len();
        lemma_hex_lower_len(a.drop_last());
        lemma_hex_lower_len(b.drop_last());
        assert(ta[n - 2] == hex_digit(a.last() as int / 16));
        assert(tb[n - 2] == hex_digit(b.last() as int / 16));
        assert(ta[n - 1] == hex_digit(a.last() as int % 16));
        assert(tb[n - 1] == hex_digit(b.last() as int % 16));
        lemma_hex_digit_injective(a.last() as int / 16, b.last() as int / 16);
        lemma_hex_digit_injective(a.last() as int % 16, b.last() as int % 16);
        assert(a.last() == b.last());
        assert(hex_lower(a.drop_last()) =~= ta.subrange(0, n - 2));
        assert(hex_lower(b.drop_last()) =~= tb.subrange(0, n - 2));
        law_hex_lower_injective(a.drop_last(), b.drop_last());
        assert(a =~= a.drop_last().push(a.last()));
        assert(b =~= b.drop_last().push(b.last()));
    } else {
        assert(b.len() == 0);
        assert(a =~= b);
    }
}

/// Law: different suffixes name different sender stores.
pub proof fn law_send_store_names_distinct(a: Seq<u8>, b: Seq<u8>)
    requires
        a != b,
    ensures
        send_store_name(a) != send_store_name(b),
{
    let p = ".gap-send-"@;
    if send_store_name(a) == send_store_name(b) {
        assert(hex_lower(a) =~= send_store_name(a).skip(p.len() as int));
        assert(hex_lower(b) =~= send_store_name(b).skip(p.len() as int));
        law_hex_lower_injective(a, b);
    }
}

} // verus!
