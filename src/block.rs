use chrono::Utc;
use sha2::{Digest, Sha256};
use vstd::prelude::*;
use vstd::string::StringExecFns;

verus! {

/// The SHA-256 digest of the UTF-8 encoding of `data`, written as 64
/// lowercase hexadecimal digits.
pub uninterp spec fn sha256_hex(data: Seq<char>) -> Seq<char>;

/// Relies on sha2's `Sha256` (through `Digest::update` and `finalize`) and on
/// the `LowerHex` formatting of its output: the digest of `data`'s bytes as
/// lowercase hex, which depends on `data` alone.
#[verifier::external_body]
pub(crate) fn sha256_hex_digest(data: &str) -> (r: String)
    ensures
        r@ == sha256_hex(data@),
{
    let mut hasher = Sha256::new();
    hasher.update(data.as_bytes());
    format!("{:x}", hasher.finalize())
}

/// Relies on chrono's `Utc::now` and `DateTime::timestamp`: the current time
/// in whole seconds since the Unix epoch. Nothing is promised of the value.
#[verifier::external_body]
pub(crate) fn unix_time_now() -> (r: u64) {
    Utc::now().timestamp() as u64
}

/// The character of a decimal digit.
pub open spec fn digit_char(d: nat) -> char {
    if d == 0 {
        '0'
    } else if d == 1 {
        '1'
    } else if d == 2 {
        '2'
    } else if d == 3 {
        '3'
    } else if d == 4 {
        '4'
    } else if d == 5 {
        '5'
    } else if d == 6 {
        '6'
    } else if d == 7 {
        '7'
    } else if d == 8 {
        '8'
    } else {
        '9'
    }
}

/// The decimal representation of `n`, without sign or leading zeros.
pub open spec fn decimal(n: nat) -> Seq<char>
    decreases n,
{
    if n < 10 {
        seq![digit_char(n)]
    } else {
        decimal(n / 10).push(digit_char(n % 10))
    }
}

fn digit_str(d: u64) -> (r: &'static str)
    requires
        d < 10,
    ensures
        r@ == seq![digit_char(d as nat)],
{
    if d == 0 {
        proof { reveal_strlit("0"); }
        "0"
    } else if d == 1 {
        proof { reveal_strlit("1"); }
        "1"
    } else if d == 2 {
        proof { reveal_strlit("2"); }
        "2"
    } else if d == 3 {
        proof { reveal_strlit("3"); }
        "3"
    } else if d == 4 {
        proof { reveal_strlit("4"); }
        "4"
    } else if d == 5 {
        proof { reveal_strlit("5"); }
        "5"
    } else if d == 6 {
        proof { reveal_strlit("6"); }
        "6"
    } else if d == 7 {
        proof { reveal_strlit("7"); }
        "7"
    } else if d == 8 {
        proof { reveal_strlit("8"); }
        "8"
    } else {
        proof { reveal_strlit("9"); }
        "9"
    }
}

/// Appends the decimal representation of `n` to `s`.
pub fn push_decimal(s: &mut String, n: u64)
    ensures
        final(s)@ == old(s)@ + decimal(n as nat),
    decreases n,
{
    if n >= 10 {
        push_decimal(s, n / 10);
    }
    s.append(digit_str(n % 10));
    assert(final(s)@ =~= old(s)@ + decimal(n as nat));
}

/// The text that a block's hash is computed over: its index, its timestamp,
/// the previous hash and the validator, one after another.
pub open spec fn hash_input(
    index: usize,
    timestamp: u64,
    previous_hash: Seq<char>,
    validator: Seq<char>,
) -> Seq<char> {
    decimal(index as nat) + decimal(timestamp as nat) + previous_hash + validator
}

/// The hash that a block with these fields carries.
pub open spec fn block_digest(
    index: usize,
    timestamp: u64,
    previous_hash: Seq<char>,
    validator: Seq<char>,
) -> Seq<char> {
    sha256_hex(hash_input(index, timestamp, previous_hash, validator))
}

/// One entry of the ledger, or a candidate for it.
pub struct Block {
    pub index: usize,
    pub hash: String,
    pub previous_hash: String,
    pub validator: String,
    pub timestamp: u64,
}

impl Clone for Block {
    fn clone(&self) -> (r: Self)
        ensures
            r == *self,
    {
        Block {
            index: self.index,
            hash: self.hash.clone(),
            previous_hash: self.previous_hash.clone(),
            validator: self.validator.clone(),
            timestamp: self.timestamp,
        }
    }
}

impl Block {
    /// The hash recomputed from the block's own fields.
    pub open spec fn digest(self) -> Seq<char> {
        block_digest(self.index, self.timestamp, self.previous_hash@, self.validator@)
    }

    /// The stored hash is the one its fields give.
    pub open spec fn is_sealed(self) -> bool {
        self.hash@ == self.digest()
    }

    /// A block stamped with the current time, its hash computed from its fields.
    pub fn new(index: usize, previous_hash: String, validator: String) -> (r: Block)
        ensures
            r.index == index,
            r.previous_hash == previous_hash,
            r.validator == validator,
            r.is_sealed(),
    {
        let timestamp = unix_time_now();
        Block::with_timestamp(index, timestamp, previous_hash, validator)
    }

    /// A block with the given timestamp, its hash computed from its fields.
    pub fn with_timestamp(index: usize, timestamp: u64, previous_hash: String, validator: String) -> (r: Block)
        ensures
            r.index == index,
            r.timestamp == timestamp,
            r.previous_hash == previous_hash,
            r.validator == validator,
            r.is_sealed(),
    {
        let block = Block { index, hash: String::new(), previous_hash, validator, timestamp };
        let hash = block.hash();
        Block { hash, ..block }
    }

    /// Recomputes the hash over index, timestamp, previous hash and validator.
    pub fn hash(&self) -> (r: String)
        ensures
            r@ == self.digest(),
    {
        let mut data = String::new();
        push_decimal(&mut data, self.index as u64);
        push_decimal(&mut data, self.timestamp);
        data.append(self.previous_hash.as_str());
        data.append(self.validator.as_str());
        assert(data@ =~= hash_input(self.index, self.timestamp, self.previous_hash@, self.validator@));
        sha256_hex_digest(data.as_str())
    }

    /// The one-line description of the block.
    pub open spec fn text(self) -> Seq<char> {
        "Block #"@ + decimal(self.index as nat) + " [Hash: "@ + self.hash@ + ", Prev. Hash: "@
            + self.previous_hash@ + ", Validator: "@ + self.validator@ + "]"@
    }

    /// Describes the block on one line: index, hash, previous hash, validator.
    pub fn to_string(&self) -> (r: String)
        ensures
            r@ == self.text(),
    {
        let mut s = String::from_str("Block #");
        push_decimal(&mut s, self.index as u64);
        s.append(" [Hash: ");
        s.append(self.hash.as_str());
        s.append(", Prev. Hash: ");
        s.append(self.previous_hash.as_str());
        s.append(", Validator: ");
        s.append(self.validator.as_str());
        s.append("]");
        s
    }
}

/// The identifier of a validator that connected from `address` at `timestamp`.
pub open spec fn validator_id_of(address: Seq<char>, timestamp: u64) -> Seq<char> {
    sha256_hex(address + decimal(timestamp as nat))
}

/// Derives a validator identifier from an address and a time.
pub fn validator_id_at(address: &str, timestamp: u64) -> (r: String)
    ensures
        r@ == validator_id_of(address@, timestamp),
{
    let mut data = String::from_str(address);
    push_decimal(&mut data, timestamp);
    sha256_hex_digest(data.as_str())
}

/// Derives a validator identifier from an address and the current time.
pub fn validator_id(address: &str) -> (r: String)
    ensures
        exists|t: u64| r@ == validator_id_of(address@, t),
{
    let t = unix_time_now();
    validator_id_at(address, t)
}

/// Blocks that agree on index, timestamp, previous hash and validator
/// recompute to the same hash, whatever hash either one stores.
pub proof fn lemma_digest_deterministic(a: Block, b: Block)
    requires
        a.index == b.index,
        a.timestamp == b.timestamp,
        a.previous_hash@ == b.previous_hash@,
        a.validator@ == b.validator@,
    ensures
        a.digest() == b.digest(),
{
}

} // verus!
