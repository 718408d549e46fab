//! The unit of mutation: one write, delete or weak delete against one
//! key in one partition.
//!
//! An `Item` is validated at construction against the size envelope
//! that the persistence layer's length-prefix encoding expects: a
//! 1-byte length for the partition name, a 2-byte length for the key,
//! a 4-byte length for the value.

use vstd::prelude::*;

verus! {

/// The marker kind of a mutation record.
#[derive(Clone, Copy, Debug, PartialEq, Eq, Structural)]
pub enum ValueType {
    /// A live write.
    Value,
    /// An unconditional delete marker: suppresses all older versions
    /// of the key during merge.
    Tombstone,
    /// A conditional delete marker: suppresses only strictly older
    /// versions of the key, never a newer write.
    WeakTombstone,
}

/// Largest accepted partition name length: its length prefix is one byte.
pub const MAX_PARTITION_LEN: usize = 255;

/// Largest accepted key length: its length prefix is two bytes.
pub const MAX_KEY_LEN: usize = 65535;

/// Why a batch item was rejected.
#[derive(Clone, Copy, Debug, PartialEq, Eq, Structural)]
pub enum ItemError {
    /// The partition name is empty.
    EmptyPartition,
    /// The key is empty.
    EmptyKey,
    /// The partition name does not fit a 1-byte length prefix.
    PartitionTooLong,
    /// The key does not fit a 2-byte length prefix.
    KeyTooLong,
    /// The value does not fit a 4-byte length prefix.
    ValueTooLong,
}

/// A single mutation against one key in one partition.
#[derive(Clone, Debug, PartialEq, Eq)]
pub struct Item {
    /// Partition key - an arbitrary byte array
    ///
    /// Supports up to 2^8 bytes
    pub partition: Vec<u8>,

    /// User-defined key - an arbitrary byte array
    ///
    /// Supports up to 2^16 bytes
    pub key: Vec<u8>,

    /// User-defined value - an arbitrary byte array
    ///
    /// Supports up to 2^32 bytes
    pub value: Vec<u8>,

    /// Marker kind - whether this record is a live value, a delete
    /// marker, or a weak delete marker
    pub value_type: ValueType,
}

impl Item {
    /// The size envelope every stored item obeys: non-empty partition
    /// and key, and each field short enough for its length prefix.
    pub open spec fn wf(&self) -> bool {
        &&& 0 < self.partition@.len() <= MAX_PARTITION_LEN
        &&& 0 < self.key@.len() <= MAX_KEY_LEN
        &&& self.value@.len() <= u32::MAX
    }

    /// The bounds check applied to candidate field values, in the
    /// order the checks run: emptiness first, then each length bound.
    /// The value bound is configurable; the widest bound any
    /// configuration can grant is what a 4-byte length prefix holds.
    pub open spec fn check_with_max(
        partition: Seq<u8>,
        key: Seq<u8>,
        value: Seq<u8>,
        max_value_size: u32,
    ) -> Result<(), ItemError> {
        if partition.len() == 0 {
            Err(ItemError::EmptyPartition)
        } else if key.len() == 0 {
            Err(ItemError::EmptyKey)
        } else if partition.len() > MAX_PARTITION_LEN {
            Err(ItemError::PartitionTooLong)
        } else if key.len() > MAX_KEY_LEN {
            Err(ItemError::KeyTooLong)
        } else if value.len() > max_value_size {
            Err(ItemError::ValueTooLong)
        } else {
            Ok(())
        }
    }

    /// The bounds check at the widest value bound, the one the
    /// 4-byte length prefix itself imposes.
    pub open spec fn check(
        partition: Seq<u8>,
        key: Seq<u8>,
        value: Seq<u8>,
    ) -> Result<(), ItemError> {
        Item::check_with_max(partition, key, value, u32::MAX)
    }

    /// Construct an item from pre-validated inputs.
    ///
    /// The bounds are a programming contract: the caller must have
    /// validated user input already, so the precondition demands the
    /// size envelope outright and the constructed item returns the
    /// inputs unchanged.
    pub fn new(partition: Vec<u8>, key: Vec<u8>, value: Vec<u8>, value_type: ValueType) -> (r: Item)
        requires
            Item::check(partition@, key@, value@) is Ok,
        ensures
            r.partition@ == partition@,
            r.key@ == key@,
            r.value@ == value@,
            r.value_type == value_type,
            r.wf(),
    {
        Item { partition, key, value, value_type }
    }

    /// Construct an item from unvalidated inputs, reporting the first
    /// violated bound instead of requiring the caller to know them.
    pub fn try_new(partition: Vec<u8>, key: Vec<u8>, value: Vec<u8>, value_type: ValueType) -> (r:
        Result<Item, ItemError>)
        ensures
            match r {
                Ok(item) => {
                    &&& Item::check(partition@, key@, value@) is Ok
                    &&& item.partition@ == partition@
                    &&& item.key@ == key@
                    &&& item.value@ == value@
                    &&& item.value_type == value_type
                    &&& item.wf()
                },
                Err(e) => Item::check(partition@, key@, value@) == Err::<(), ItemError>(e),
            },
    {
        Item::try_new_with_max_value_size(partition, key, value, value_type, u32::MAX)
    }

    /// Like `try_new`, with the value bound chosen by the caller:
    /// deployments that cap values below what the length prefix can
    /// express reject oversize values here, at construction time.
    pub fn try_new_with_max_value_size(
        partition: Vec<u8>,
        key: Vec<u8>,
        value: Vec<u8>,
        value_type: ValueType,
        max_value_size: u32,
    ) -> (r: Result<Item, ItemError>)
        ensures
            match r {
                Ok(item) => {
                    &&& Item::check_with_max(partition@, key@, value@, max_value_size) is Ok
                    &&& item.partition@ == partition@
                    &&& item.key@ == key@
                    &&& item.value@ == value@
                    &&& item.value_type == value_type
                    &&& item.wf()
                },
                Err(e) => Item::check_with_max(partition@, key@, value@, max_value_size)
                    == Err::<(), ItemError>(e),
            },
    {
        if partition.len() == 0 {
            return Err(ItemError::EmptyPartition);
        }
        if key.len() == 0 {
            return Err(ItemError::EmptyKey);
        }
        if partition.len() > MAX_PARTITION_LEN {
            return Err(ItemError::PartitionTooLong);
        }
        if key.len() > MAX_KEY_LEN {
            return Err(ItemError::KeyTooLong);
        }
        if value.len() > max_value_size as usize {
            return Err(ItemError::ValueTooLong);
        }
        Ok(Item::new(partition, key, value, value_type))
    }

    /// The diagnostic form of the item: the partition, the key and
    /// the value as lowercase hex, the marker kind as its one-letter
    /// symbol, laid out as `partition:key:marker => value`.
    pub open spec fn spec_render(&self) -> Seq<char> {
        hex_of(self.partition@) + seq![':'] + hex_of(self.key@) + seq![':'] + seq![
            marker_char(self.value_type),
        ] + seq![' ', '=', '>', ' '] + hex_of(self.value@)
    }

    /// Render the item for tracing and log output.  The form is
    /// human-readable only; persistence never reads it.
    pub fn render(&self) -> (r: String)
        ensures
            r@ == self.spec_render(),
    {
        let mut out = String::new();
        push_hex(&mut out, &self.partition);
        proof {
            reveal_strlit(":");
            assert(":"@ =~= seq![':']);
            reveal_strlit(" => ");
            assert(" => "@ =~= seq![' ', '=', '>', ' ']);
        }
        out.append(":");
        push_hex(&mut out, &self.key);
        out.append(":");
        out.append(marker_str(self.value_type));
        out.append(" => ");
        push_hex(&mut out, &self.value);
        proof {
            assert(out@ =~= self.spec_render());
        }
        out
    }
}

/// The one-letter symbol of a marker kind in the diagnostic form:
/// `V` for a live value, `T` for a tombstone, `W` for a weak
/// tombstone.
pub open spec fn marker_char(t: ValueType) -> char {
    match t {
        ValueType::Value => 'V',
        ValueType::Tombstone => 'T',
        ValueType::WeakTombstone => 'W',
    }
}

/// The three marker kinds render as three distinct symbols, so a
/// weak tombstone can be told from a hard tombstone and from a live
/// value in a trace.
pub proof fn lemma_marker_symbols_distinct()
    ensures
        marker_char(ValueType::Value) == 'V',
        marker_char(ValueType::Tombstone) == 'T',
        marker_char(ValueType::WeakTombstone) == 'W',
{
}

/// The marker symbol stands right after the second separator of the
/// rendered form, whatever the field contents.
pub proof fn lemma_render_shows_marker(item: Item)
    ensures
        item.spec_render().len() == hex_of(item.partition@).len() + hex_of(item.key@).len()
            + hex_of(item.value@).len() + 7,
        item.spec_render()[hex_of(item.partition@).len() + hex_of(item.key@).len() + 2int]
            == marker_char(item.value_type),
{
}

/// The lowercase hex digit of a nibble.
pub open spec fn hex_digit(n: int) -> char {
    if n == 0 {
        '0'
    } else if n == 1 {
        '1'
    } else if n == 2 {
        '2'
    } else if n == 3 {
        '3'
    } else if n == 4 {
        '4'
    } else if n == 5 {
        '5'
    } else if n == 6 {
        '6'
    } else if n == 7 {
        '7'
    } else if n == 8 {
        '8'
    } else if n == 9 {
        '9'
    } else if n == 10 {
        'a'
    } else if n == 11 {
        'b'
    } else if n == 12 {
        'c'
    } else if n == 13 {
        'd'
    } else if n == 14 {
        'e'
    } else {
        'f'
    }
}

/// A byte sequence as lowercase hex: two digits per byte, in order.
pub open spec fn hex_of(s: Seq<u8>) -> Seq<char>
    decreases s.len(),
{
    if s.len() == 0 {
        Seq::empty()
    } else {
        hex_of(s.drop_last()) + seq![
            hex_digit(s.last() as int / 16),
            hex_digit(s.last() as int % 16),
        ]
    }
}

/// The hex digit of a nibble, as a one-character string.
fn nibble_str(n: u8) -> (r: &'static str)
    requires
        n < 16,
    ensures
        r@ == seq![hex_digit(n as int)],
{
    proof {
        reveal_strlit("0");
        reveal_strlit("1");
        reveal_strlit("2");
        reveal_strlit("3");
        reveal_strlit("4");
        reveal_strlit("5");
        reveal_strlit("6");
        reveal_strlit("7");
        reveal_strlit("8");
        reveal_strlit("9");
        reveal_strlit("a");
        reveal_strlit("b");
        reveal_strlit("c");
        reveal_strlit("d");
        reveal_strlit("e");
        reveal_strlit("f");
    }
    let r: &'static str = match n {
        0 => "0",
        1 => "1",
        2 => "2",
        3 => "3",
        4 => "4",
        5 => "5",
        6 => "6",
        7 => "7",
        8 => "8",
        9 => "9",
        10 => "a",
        11 => "b",
        12 => "c",
        13 => "d",
        14 => "e",
        _ => "f",
    };
    proof {
        assert(r@ =~= seq![hex_digit(n as int)]);
    }
    r
}

/// The marker symbol as a one-character string.
fn marker_str(t: ValueType) -> (r: &'static str)
    ensures
        r@ == seq![marker_char(t)],
{
    proof {
        reveal_strlit("V");
        reveal_strlit("T");
        reveal_strlit("W");
    }
    let r: &'static str = match t {
        ValueType::Value => "V",
        ValueType::Tombstone => "T",
        ValueType::WeakTombstone => "W",
    };
    proof {
        assert(r@ =~= seq![marker_char(t)]);
    }
    r
}

/// Append the hex form of a byte sequence to a string under
/// construction.
fn push_hex(out: &mut String, bytes: &Vec<u8>)
    ensures
        final(out)@ == old(out)@ + hex_of(bytes@),
{
    let mut i: usize = 0;
    proof {
        assert(bytes@.take(0) =~= Seq::<u8>::empty());
        assert(out@ =~= out@ + hex_of(bytes@.take(0)));
    }
    while i < bytes.len()
        invariant
            0 <= i <= bytes@.len(),
            out@ == old(out)@ + hex_of(bytes@.take(i as int)),
        decreases bytes@.len() - i,
    {
        let b = bytes[i];
        out.append(nibble_str(b / 16));
        out.append(nibble_str(b % 16));
        proof {
            let prefix = bytes@.take(i as int);
            let extended = bytes@.take(i + 1);
            assert(extended.drop_last() =~= prefix);
            assert(extended.last() == b);
            assert(hex_of(extended) == hex_of(prefix) + seq![
                hex_digit(b as int / 16),
                hex_digit(b as int % 16),
            ]);
            assert(out@ =~= old(out)@ + hex_of(extended));
        }
        i += 1;
    }
    proof {
        assert(bytes@.take(bytes@.len() as int) =~= bytes@);
    }
}

} // verus!
