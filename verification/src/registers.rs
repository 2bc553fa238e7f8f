//! Change tracking for TeX registers (count, dimen, skip, glue): each
//! write records whether the value's hash changed, and a snapshot hash
//! summarises the state.

use vstd::prelude::*;
use crate::encoding::{enc_i32, enc_i8, enc_u128, push_i32, push_i8, push_u128, signed_decimal, push_signed_decimal};
use crate::digests::{spec_siphash13, siphash13_128};
use crate::hashing::{HashInput, HashComputation};
use crate::int_map::{IntMap, int_entries_map};
use crate::dependency::{DependencyKey, DependencyKeyView, DependencyType, DependencyTypeView};
use crate::text::string_from_chars;

verus! {

/// TeX glue: a width with stretch and shrink components.
#[derive(Clone, Copy, Debug, PartialEq, Eq, Structural)]
pub struct GlueValue {
    /// Fixed width component (scaled points)
    pub width: i32,
    /// Stretch component (scaled points)
    pub stretch: i32,
    /// Shrink component (scaled points)
    pub shrink: i32,
    /// Stretch order (0=pt, 1=fil, 2=fill, 3=filll)
    pub stretch_order: i8,
    /// Shrink order
    pub shrink_order: i8,
}

impl HashInput for GlueValue {
    open spec fn hash_bytes(&self) -> Seq<u8> {
        enc_i32(self.width) + enc_i32(self.stretch) + enc_i32(self.shrink) + enc_i8(
            self.stretch_order,
        ) + enc_i8(self.shrink_order)
    }

    fn append_hash_bytes(&self, out: &mut Vec<u8>) {
        push_i32(out, self.width);
        push_i32(out, self.stretch);
        push_i32(out, self.shrink);
        push_i8(out, self.stretch_order);
        push_i8(out, self.shrink_order);
        proof {
            assert(final(out)@ =~= old(out)@ + self.hash_bytes());
        }
    }
}

/// A register's value with change-tracking metadata.
#[derive(Clone, Copy, Debug)]
pub struct RegisterValue<T> {
    /// Current value of the register
    pub value: T,
    /// Hash of the current value
    pub value_hash: u128,
    /// When this register was last modified
    pub last_modified: u64,
    /// How many times this register has been modified
    pub modification_count: u64,
    /// Source location where last modification occurred
    pub last_modified_source: Option<usize>,
}

/// Kinds of TeX register.
#[derive(Clone, Copy, Debug, PartialEq, Eq, Hash, Structural)]
pub enum RegisterType {
    /// \count registers
    Count,
    /// \dimen registers
    Dimen,
    /// \skip registers
    Skip,
    /// \glue registers (mutable)
    Glue,
    /// \toks registers
    Toks,
}

impl RegisterType {
    /// The variant's name, as `Debug` prints it.
    pub open spec fn spec_name(self) -> Seq<char> {
        match self {
            RegisterType::Count => seq!['C', 'o', 'u', 'n', 't'],
            RegisterType::Dimen => seq!['D', 'i', 'm', 'e', 'n'],
            RegisterType::Skip => seq!['S', 'k', 'i', 'p'],
            RegisterType::Glue => seq!['G', 'l', 'u', 'e'],
            RegisterType::Toks => seq!['T', 'o', 'k', 's'],
        }
    }

    fn push_name(&self, out: &mut Vec<char>)
        ensures
            final(out)@ == old(out)@ + self.spec_name(),
    {
        match self {
            RegisterType::Count => {
                out.push('C');
                out.push('o');
                out.push('u');
                out.push('n');
                out.push('t');
            },
            RegisterType::Dimen => {
                out.push('D');
                out.push('i');
                out.push('m');
                out.push('e');
                out.push('n');
            },
            RegisterType::Skip => {
                out.push('S');
                out.push('k');
                out.push('i');
                out.push('p');
            },
            RegisterType::Glue => {
                out.push('G');
                out.push('l');
                out.push('u');
                out.push('e');
            },
            RegisterType::Toks => {
                out.push('T');
                out.push('o');
                out.push('k');
                out.push('s');
            },
        }
        proof {
            assert(final(out)@ =~= old(out)@ + self.spec_name());
        }
    }
}

/// A register write that changed the register's value hash.
#[derive(Clone, Copy, Debug)]
pub struct RegisterChange {
    /// Type of register that changed
    pub register_type: RegisterType,
    /// Register number
    pub register_number: i32,
    /// Hash of the old value
    pub old_value_hash: u128,
    /// Hash of the new value
    pub new_value_hash: u128,
    /// When the change occurred
    pub timestamp: u64,
    /// Source position where change was made
    pub source_position: Option<usize>,
    /// Change sequence number
    pub sequence: u64,
}

/// Register usage statistics.
#[derive(Clone, Copy, Debug)]
pub struct RegisterStatistics {
    pub total_count_registers: usize,
    pub total_dimen_registers: usize,
    pub total_skip_registers: usize,
    pub total_glue_registers: usize,
    pub total_changes: u64,
    pub pending_changes: usize,
    pub most_modified_register: Option<(RegisterType, i32, u64)>,
}

/// Snapshot bytes of one register bank: each register number and its
/// value hash, in increasing register order.
pub open spec fn bank_bytes<T>(s: Seq<(i32, RegisterValue<T>)>) -> Seq<u8>
    decreases s.len(),
{
    if s.len() == 0 {
        Seq::empty()
    } else {
        bank_bytes(s.drop_last()) + enc_i32(s.last().0) + enc_u128(s.last().1.value_hash)
    }
}

/// `(type, number, modification count)` of each register of one bank.
pub open spec fn bank_counts<T>(t: RegisterType, s: Seq<(i32, RegisterValue<T>)>) -> Seq<
    (RegisterType, i32, u64),
> {
    s.map_values(|e: (i32, RegisterValue<T>)| (t, e.0, e.1.modification_count))
}

/// The register identifier of a change: `Type[number]`.
pub open spec fn register_identifier(t: RegisterType, n: i32) -> Seq<char> {
    t.spec_name() + seq!['['] + signed_decimal(n as int) + seq![']']
}

/// The dependency a register change stands for.
pub open spec fn change_dependency(c: RegisterChange) -> DependencyKeyView {
    DependencyKeyView {
        dep_type: DependencyTypeView::Register,
        identifier: register_identifier(c.register_type, c.register_number),
        value_hash: c.new_value_hash,
    }
}

/// The first entry with the greatest positive count, if any count is
/// positive.
pub open spec fn is_most_modified(
    s: Seq<(RegisterType, i32, u64)>,
    r: Option<(RegisterType, i32, u64)>,
) -> bool {
    match r {
        None => forall|i: int| 0 <= i < s.len() ==> #[trigger] s[i].2 == 0,
        Some(e) => exists|i: int|
            0 <= i < s.len() && s[i] == e && e.2 > 0 && (forall|j: int|
                0 <= j < s.len() ==> #[trigger] s[j].2 <= e.2) && (forall|j: int|
                0 <= j < i ==> #[trigger] s[j].2 < e.2),
    }
}

/// Tracks register values and the changes made since the last snapshot.
#[derive(Debug)]
pub struct RegisterTracker {
    /// Count registers (integer values)
    pub count_registers: IntMap<RegisterValue<i32>>,
    /// Dimension registers (scaled points)
    pub dimen_registers: IntMap<RegisterValue<i32>>,
    /// Skip registers (glue values)
    pub skip_registers: IntMap<RegisterValue<GlueValue>>,
    /// Glue registers (mutable glue)
    pub glue_registers: IntMap<RegisterValue<GlueValue>>,
    /// Snapshot of last known register state
    pub last_snapshot_hash: u128,
    /// Changes since the last snapshot
    pub dirty_registers: Vec<RegisterChange>,
    /// Change sequence number for ordering
    pub change_sequence: u64,
}

/// The effect of one write on a register bank: the new value with its
/// hash, time, source and a modification count one above the previous one (or
/// one for a first write).
pub open spec fn bank_after_write<T>(
    before: Map<i32, RegisterValue<T>>,
    after: Map<i32, RegisterValue<T>>,
    register: i32,
    value: T,
    value_hash: u128,
    timestamp: u64,
    source_position: Option<usize>,
) -> bool {
    &&& after.dom() == before.dom().insert(register)
    &&& forall|k: i32| k != register && before.contains_key(k) ==> after[k] == before[k]
    &&& after[register].value == value
    &&& after[register].value_hash == value_hash
    &&& after[register].last_modified == timestamp
    &&& after[register].last_modified_source == source_position
    &&& after[register].modification_count == if before.contains_key(register) {
        before[register].modification_count + 1
    } else {
        1
    }
}

/// Whether a write records a change: the register is new or its value hash
/// differs.
pub open spec fn write_changes<T>(before: Map<i32, RegisterValue<T>>, register: i32, value_hash: u128) -> bool {
    !before.contains_key(register) || before[register].value_hash != value_hash
}

/// The change log after a write.
pub open spec fn log_after_write<T>(
    old_t: RegisterTracker,
    new_t: RegisterTracker,
    bank: Map<i32, RegisterValue<T>>,
    kind: RegisterType,
    register: i32,
    value_hash: u128,
    timestamp: u64,
    source_position: Option<usize>,
) -> bool {
    if write_changes(bank, register, value_hash) {
        &&& new_t.change_sequence == old_t.change_sequence + 1
        &&& new_t.dirty_registers@.len() == old_t.dirty_registers@.len() + 1
        &&& new_t.dirty_registers@.drop_last() == old_t.dirty_registers@
        &&& new_t.dirty_registers@.last().register_type == kind
        &&& new_t.dirty_registers@.last().register_number == register
        &&& new_t.dirty_registers@.last().old_value_hash == if bank.contains_key(register) {
            bank[register].value_hash
        } else {
            0
        }
        &&& new_t.dirty_registers@.last().new_value_hash == value_hash
        &&& new_t.dirty_registers@.last().timestamp == timestamp
        &&& new_t.dirty_registers@.last().source_position == source_position
        &&& new_t.dirty_registers@.last().sequence == new_t.change_sequence
    } else {
        &&& new_t.change_sequence == old_t.change_sequence
        &&& new_t.dirty_registers@ == old_t.dirty_registers@
    }
}

impl RegisterTracker {
    /// No counter is at its maximum, so another write cannot overflow.
    pub open spec fn can_write(&self) -> bool {
        &&& self.change_sequence < u64::MAX
        &&& forall|k: i32| #[trigger] self.count_registers.contents().contains_key(k) ==> self.count_registers.contents()[k].modification_count < u64::MAX
        &&& forall|k: i32| #[trigger] self.dimen_registers.contents().contains_key(k) ==> self.dimen_registers.contents()[k].modification_count < u64::MAX
        &&& forall|k: i32| #[trigger] self.skip_registers.contents().contains_key(k) ==> self.skip_registers.contents()[k].modification_count < u64::MAX
    }

    /// The bytes a snapshot hashes: count, dimen, skip then glue banks.
    pub open spec fn snapshot_bytes(&self) -> Seq<u8> {
        bank_bytes(self.count_registers.entry_seq()) + bank_bytes(self.dimen_registers.entry_seq())
            + bank_bytes(self.skip_registers.entry_seq()) + bank_bytes(
            self.glue_registers.entry_seq(),
        )
    }

    /// Modification counts of count, dimen then skip registers, each bank
    /// in increasing register order.
    pub open spec fn modification_counts(&self) -> Seq<(RegisterType, i32, u64)> {
        bank_counts(RegisterType::Count, self.count_registers.entry_seq()) + bank_counts(
            RegisterType::Dimen,
            self.dimen_registers.entry_seq(),
        ) + bank_counts(RegisterType::Skip, self.skip_registers.entry_seq())
    }

    /// An empty tracker.
    pub fn new() -> (t: Self)
        ensures
            t.count_registers.entry_seq().len() == 0,
            t.dimen_registers.entry_seq().len() == 0,
            t.skip_registers.entry_seq().len() == 0,
            t.glue_registers.entry_seq().len() == 0,
            t.last_snapshot_hash == 0,
            t.dirty_registers@.len() == 0,
            t.change_sequence == 0,
            t.can_write(),
    {
        RegisterTracker {
            count_registers: IntMap::new(),
            dimen_registers: IntMap::new(),
            skip_registers: IntMap::new(),
            glue_registers: IntMap::new(),
            last_snapshot_hash: 0,
            dirty_registers: Vec::new(),
            change_sequence: 0,
        }
    }

    /// Records a change in the change log.
    fn record_register_change(
        &mut self,
        register_type: RegisterType,
        register_number: i32,
        old_value_hash: u128,
        new_value_hash: u128,
        timestamp: u64,
        source_position: Option<usize>,
    )
        requires
            old(self).change_sequence < u64::MAX,
        ensures
            final(self).change_sequence == old(self).change_sequence + 1,
            final(self).dirty_registers@.last().timestamp == timestamp,
            final(self).dirty_registers@.drop_last() == old(self).dirty_registers@,
            final(self).dirty_registers@.len() == old(self).dirty_registers@.len() + 1,
            final(self).dirty_registers@.last().register_type == register_type,
            final(self).dirty_registers@.last().register_number == register_number,
            final(self).dirty_registers@.last().old_value_hash == old_value_hash,
            final(self).dirty_registers@.last().new_value_hash == new_value_hash,
            final(self).dirty_registers@.last().source_position == source_position,
            final(self).dirty_registers@.last().sequence == final(self).change_sequence,
            final(self).count_registers == old(self).count_registers,
            final(self).dimen_registers == old(self).dimen_registers,
            final(self).skip_registers == old(self).skip_registers,
            final(self).glue_registers == old(self).glue_registers,
            final(self).last_snapshot_hash == old(self).last_snapshot_hash,
    {
        self.change_sequence += 1;
        let change = RegisterChange {
            register_type,
            register_number,
            old_value_hash,
            new_value_hash,
            timestamp,
            source_position,
            sequence: self.change_sequence,
        };
        self.dirty_registers.push(change);
        proof {
            assert(self.dirty_registers@.drop_last() =~= old(self).dirty_registers@);
        }
    }

    /// Logs the change a write makes, if it makes one.
    fn note_write(
        &mut self,
        register_type: RegisterType,
        register: i32,
        previous: Option<(u128, u64)>,
        value_hash: u128,
        timestamp: u64,
        source_position: Option<usize>,
    )
        requires
            old(self).change_sequence < u64::MAX,
        ensures
            final(self).count_registers == old(self).count_registers,
            final(self).dimen_registers == old(self).dimen_registers,
            final(self).skip_registers == old(self).skip_registers,
            final(self).glue_registers == old(self).glue_registers,
            final(self).last_snapshot_hash == old(self).last_snapshot_hash,
            (previous is None || previous.unwrap().0 != value_hash) ==> {
                &&& final(self).change_sequence == old(self).change_sequence + 1
                &&& final(self).dirty_registers@.len() == old(self).dirty_registers@.len() + 1
                &&& final(self).dirty_registers@.drop_last() == old(self).dirty_registers@
                &&& final(self).dirty_registers@.last().register_type == register_type
                &&& final(self).dirty_registers@.last().register_number == register
                &&& final(self).dirty_registers@.last().old_value_hash == match previous {
                    Some(p) => p.0,
                    None => 0,
                }
                &&& final(self).dirty_registers@.last().new_value_hash == value_hash
                &&& final(self).dirty_registers@.last().timestamp == timestamp
                &&& final(self).dirty_registers@.last().source_position == source_position
                &&& final(self).dirty_registers@.last().sequence == final(self).change_sequence
            },
            !(previous is None || previous.unwrap().0 != value_hash) ==> {
                &&& final(self).change_sequence == old(self).change_sequence
                &&& final(self).dirty_registers@ == old(self).dirty_registers@
            },
    {
        match previous {
            Some((h, _)) => {
                if h != value_hash {
                    self.record_register_change(register_type, register, h, value_hash, timestamp, source_position);
                }
            },
            None => {
                self.record_register_change(register_type, register, 0, value_hash, timestamp, source_position);
            },
        }
    }

    /// What setting `\count<register>` to `value` does to a tracker: the
    /// register takes the value, its hash and the source, one more
    /// modification is counted, a change is logged when the value's hash
    /// differs from the register's, and the other banks stay.
    pub open spec fn sets_count(
        before: RegisterTracker,
        after: RegisterTracker,
        register: i32,
        value: i32,
        source_position: Option<usize>,
        now_us: u64,
    ) -> bool {
        &&& (bank_after_write(
                before.count_registers.contents(),
                after.count_registers.contents(),
                register,
                value,
                spec_siphash13(enc_i32(value)),
                now_us,
                source_position,
            ))
        &&& (log_after_write(
                before,
                after,
                before.count_registers.contents(),
                RegisterType::Count,
                register,
                spec_siphash13(enc_i32(value)),
                now_us,
                source_position,
            ))
        &&& (after.dimen_registers == before.dimen_registers)
        &&& (after.skip_registers == before.skip_registers)
        &&& (after.glue_registers == before.glue_registers)
        &&& (after.last_snapshot_hash == before.last_snapshot_hash)
    }

    /// Sets `\count<register>` at time `now_us` (microseconds, as the caller
    /// reads the clock).
    pub fn set_count(&mut self, register: i32, value: i32, source_position: Option<usize>, now_us: u64)
        requires
            old(self).can_write(),
        ensures
            Self::sets_count(*old(self), *final(self), register, value, source_position, now_us),
    {
        let value_hash = HashComputation::hash_content(&value);
        let previous = bank_previous(&self.count_registers, register);
        self.note_write(RegisterType::Count, register, previous, value_hash, now_us, source_position);
        bank_store(&mut self.count_registers, register, value, value_hash, now_us, source_position, previous);
    }

    /// What setting `\dimen<register>` to `value` does to a tracker: the
    /// register takes the value, its hash and the source, one more
    /// modification is counted, a change is logged when the value's hash
    /// differs from the register's, and the other banks stay.
    pub open spec fn sets_dimen(
        before: RegisterTracker,
        after: RegisterTracker,
        register: i32,
        value: i32,
        source_position: Option<usize>,
        now_us: u64,
    ) -> bool {
        &&& (bank_after_write(
                before.dimen_registers.contents(),
                after.dimen_registers.contents(),
                register,
                value,
                spec_siphash13(enc_i32(value)),
                now_us,
                source_position,
            ))
        &&& (log_after_write(
                before,
                after,
                before.dimen_registers.contents(),
                RegisterType::Dimen,
                register,
                spec_siphash13(enc_i32(value)),
                now_us,
                source_position,
            ))
        &&& (after.count_registers == before.count_registers)
        &&& (after.skip_registers == before.skip_registers)
        &&& (after.glue_registers == before.glue_registers)
        &&& (after.last_snapshot_hash == before.last_snapshot_hash)
    }

    /// Sets `\dimen<register>` (in scaled points) at time `now_us`
    /// (microseconds, as the caller reads the clock).
    pub fn set_dimen(&mut self, register: i32, value: i32, source_position: Option<usize>, now_us: u64)
        requires
            old(self).can_write(),
        ensures
            Self::sets_dimen(*old(self), *final(self), register, value, source_position, now_us),
    {
        let value_hash = HashComputation::hash_content(&value);
        let previous = bank_previous(&self.dimen_registers, register);
        self.note_write(RegisterType::Dimen, register, previous, value_hash, now_us, source_position);
        bank_store(&mut self.dimen_registers, register, value, value_hash, now_us, source_position, previous);
    }

    /// What setting `\skip<register>` to `value` does to a tracker: the
    /// register takes the value, its hash and the source, one more
    /// modification is counted, a change is logged when the value's hash
    /// differs from the register's, and the other banks stay.
    pub open spec fn sets_skip(
        before: RegisterTracker,
        after: RegisterTracker,
        register: i32,
        value: GlueValue,
        source_position: Option<usize>,
        now_us: u64,
    ) -> bool {
        &&& (bank_after_write(
                before.skip_registers.contents(),
                after.skip_registers.contents(),
                register,
                value,
                spec_siphash13(value.hash_bytes()),
                now_us,
                source_position,
            ))
        &&& (log_after_write(
                before,
                after,
                before.skip_registers.contents(),
                RegisterType::Skip,
                register,
                spec_siphash13(value.hash_bytes()),
                now_us,
                source_position,
            ))
        &&& (after.count_registers == before.count_registers)
        &&& (after.dimen_registers == before.dimen_registers)
        &&& (after.glue_registers == before.glue_registers)
        &&& (after.last_snapshot_hash == before.last_snapshot_hash)
    }

    /// Sets `\skip<register>` at time `now_us` (microseconds, as the caller
    /// reads the clock).
    pub fn set_skip(&mut self, register: i32, value: GlueValue, source_position: Option<usize>, now_us: u64)
        requires
            old(self).can_write(),
        ensures
            Self::sets_skip(*old(self), *final(self), register, value, source_position, now_us),
    {
        let value_hash = HashComputation::hash_content(&value);
        let previous = bank_previous(&self.skip_registers, register);
        self.note_write(RegisterType::Skip, register, previous, value_hash, now_us, source_position);
        bank_store(&mut self.skip_registers, register, value, value_hash, now_us, source_position, previous);
    }

    /// The changes logged since the last snapshot, oldest first.
    pub fn get_changes_since_snapshot(&self) -> (r: &[RegisterChange])
        ensures
            r@ == self.dirty_registers@,
    {
        self.dirty_registers.as_slice()
    }

    /// What taking a snapshot does to a tracker: `r` is the hash of the
    /// register state, it is remembered, the change log is cleared and the
    /// registers stay.
    pub open spec fn snapshot_taken(before: RegisterTracker, after: RegisterTracker, r: u128) -> bool {
        &&& (r == spec_siphash13(before.snapshot_bytes()))
        &&& (after.last_snapshot_hash == r)
        &&& (after.dirty_registers@.len() == 0)
        &&& (after.count_registers == before.count_registers)
        &&& (after.dimen_registers == before.dimen_registers)
        &&& (after.skip_registers == before.skip_registers)
        &&& (after.glue_registers == before.glue_registers)
        &&& (after.change_sequence == before.change_sequence)
    }

    /// Hashes the current register state, remembers the hash and clears the
    /// change log.
    pub fn create_snapshot(&mut self) -> (r: u128)
        ensures
            Self::snapshot_taken(*old(self), *final(self), r),
    {
        let mut bytes: Vec<u8> = Vec::new();
        push_bank(&mut bytes, &self.count_registers);
        push_bank(&mut bytes, &self.dimen_registers);
        push_bank(&mut bytes, &self.skip_registers);
        push_bank(&mut bytes, &self.glue_registers);
        proof {
            assert(bytes@ =~= self.snapshot_bytes());
        }
        let snapshot_hash = siphash13_128(bytes.as_slice());
        self.last_snapshot_hash = snapshot_hash;
        self.dirty_registers.clear();
        snapshot_hash
    }

    /// Whether any change was logged since the last snapshot.
    pub fn has_changes(&self) -> (b: bool)
        ensures
            b == (self.dirty_registers@.len() > 0),
    {
        self.dirty_registers.len() != 0
    }

    /// One register dependency per logged change, in log order.
    pub fn get_register_dependencies(&self) -> (r: Vec<DependencyKey>)
        ensures
            r@.len() == self.dirty_registers@.len(),
            forall|i: int| 0 <= i < r@.len() ==> #[trigger] r@[i]@ == change_dependency(self.dirty_registers@[i]),
    {
        let mut r: Vec<DependencyKey> = Vec::new();
        let n = self.dirty_registers.len();
        let mut i: usize = 0;
        while i < n
            invariant
                n == self.dirty_registers@.len(),
                i <= n,
                r@.len() == i,
                forall|j: int| 0 <= j < i ==> #[trigger] r@[j]@ == change_dependency(self.dirty_registers@[j]),
            decreases n - i,
        {
            let change = &self.dirty_registers[i];
            let mut id: Vec<char> = Vec::new();
            change.register_type.push_name(&mut id);
            id.push('[');
            push_signed_decimal(&mut id, change.register_number as i64);
            id.push(']');
            proof {
                assert(id@ =~= register_identifier(change.register_type, change.register_number));
            }
            let identifier = string_from_chars(&id);
            r.push(DependencyKey {
                dep_type: DependencyType::Register,
                identifier,
                value_hash: change.new_value_hash,
            });
            i += 1;
        }
        r
    }

    /// Whether `s` reports this tracker: the register counts per bank, the
    /// change counters and the most modified register.
    pub open spec fn describes_statistics(&self, s: RegisterStatistics) -> bool {
        &&& (s.total_count_registers == self.count_registers.entry_seq().len())
        &&& (s.total_dimen_registers == self.dimen_registers.entry_seq().len())
        &&& (s.total_skip_registers == self.skip_registers.entry_seq().len())
        &&& (s.total_glue_registers == self.glue_registers.entry_seq().len())
        &&& (s.total_changes == self.change_sequence)
        &&& (s.pending_changes == self.dirty_registers@.len())
        &&& (is_most_modified(self.modification_counts(), s.most_modified_register))
    }

    /// Register counts, change counters and the most modified register.
    pub fn get_statistics(&self) -> (s: RegisterStatistics)
        ensures
            self.describes_statistics(s),
    {
        RegisterStatistics {
            total_count_registers: self.count_registers.len(),
            total_dimen_registers: self.dimen_registers.len(),
            total_skip_registers: self.skip_registers.len(),
            total_glue_registers: self.glue_registers.len(),
            total_changes: self.change_sequence,
            pending_changes: self.dirty_registers.len(),
            most_modified_register: self.find_most_modified_register(),
        }
    }

    /// The register with the most modifications; among equals, the first in
    /// count, dimen, skip order and then by register number.
    fn find_most_modified_register(&self) -> (r: Option<(RegisterType, i32, u64)>)
        ensures
            is_most_modified(self.modification_counts(), r),
    {
        let ghost s = self.modification_counts();
        let ghost a = bank_counts(RegisterType::Count, self.count_registers.entry_seq());
        let ghost b = bank_counts(RegisterType::Dimen, self.dimen_registers.entry_seq());
        let ghost c = bank_counts(RegisterType::Skip, self.skip_registers.entry_seq());
        proof {
            assert(s == a + b + c);
            assert(s.subrange(0, a.len() as int) =~= a);
            assert(s.subrange(a.len() as int, (a.len() + b.len()) as int) =~= b);
            assert(s.subrange((a.len() + b.len()) as int, s.len() as int) =~= c);
        }
        let mut best: u64 = 0;
        let mut result: Option<(RegisterType, i32, u64)> = None;
        proof {
            assert(is_running_best(s.subrange(0, 0), best, result));
        }
        scan_bank(&self.count_registers, RegisterType::Count, &mut best, &mut result, Ghost(s), Ghost(0));
        scan_bank(&self.dimen_registers, RegisterType::Dimen, &mut best, &mut result, Ghost(s), Ghost(a.len() as int));
        scan_bank(&self.skip_registers, RegisterType::Skip, &mut best, &mut result, Ghost(s), Ghost((a.len() + b.len()) as int));
        proof {
            assert(s.subrange(0, s.len() as int) =~= s);
        }
        result
    }
}

/// `result` is the first greatest positive count among `s`, `best` that
/// count (zero if none).
pub open spec fn is_running_best(
    s: Seq<(RegisterType, i32, u64)>,
    best: u64,
    result: Option<(RegisterType, i32, u64)>,
) -> bool {
    &&& result is None ==> best == 0
    &&& result is Some ==> result.unwrap().2 == best
    &&& is_most_modified(s, result)
}

fn scan_bank<T>(
    bank: &IntMap<RegisterValue<T>>,
    kind: RegisterType,
    best: &mut u64,
    result: &mut Option<(RegisterType, i32, u64)>,
    Ghost(all): Ghost<Seq<(RegisterType, i32, u64)>>,
    Ghost(offset): Ghost<int>,
)
    requires
        0 <= offset,
        offset + bank.entry_seq().len() <= all.len(),
        all.subrange(offset, offset + bank.entry_seq().len()) == bank_counts(kind, bank.entry_seq()),
        is_running_best(all.subrange(0, offset), *old(best), *old(result)),
    ensures
        is_running_best(
            all.subrange(0, offset + bank.entry_seq().len()),
            *final(best),
            *final(result),
        ),
{
    let n = bank.len();
    let mut i: usize = 0;
    while i < n
        invariant
            n == bank.entry_seq().len(),
            0 <= offset,
            offset + n <= all.len(),
            all.subrange(offset, offset + n) == bank_counts(kind, bank.entry_seq()),
            i <= n,
            is_running_best(all.subrange(0, offset + i), *best, *result),
        decreases n - i,
    {
        let num = bank.key_at(i);
        let count = bank.value_at(i).modification_count;
        let ghost prev = all.subrange(0, offset + i);
        let ghost next = all.subrange(0, offset + i + 1);
        proof {
            assert(all.subrange(offset, offset + n)[i as int] == all[offset + i]);
            assert(all[offset + i] == (kind, num, count));
            assert(next.drop_last() =~= prev);
            assert(next.last() == (kind, num, count));
        }
        if count > *best {
            *best = count;
            *result = Some((kind, num, count));
            proof {
                assert forall|j: int| 0 <= j < next.len() implies #[trigger] next[j].2 <= count by {
                    if j < prev.len() {
                        assert(next[j] == prev[j]);
                    }
                }
                assert forall|j: int| 0 <= j < offset + i implies #[trigger] next[j].2 < count by {
                    assert(next[j] == prev[j]);
                }
                assert(next[offset + i] == (kind, num, count));
            }
        } else {
            proof {
                match *result {
                    None => {
                        assert forall|j: int| 0 <= j < next.len() implies #[trigger] next[j].2 == 0 by {
                            if j < prev.len() {
                                assert(next[j] == prev[j]);
                            }
                        }
                    },
                    Some(e) => {
                        let k = choose|k: int|
                            0 <= k < prev.len() && prev[k] == e && e.2 > 0 && (forall|j: int|
                                0 <= j < prev.len() ==> #[trigger] prev[j].2 <= e.2) && (forall|j: int|
                                0 <= j < k ==> #[trigger] prev[j].2 < e.2);
                        assert(next[k] == e);
                        assert forall|j: int| 0 <= j < next.len() implies #[trigger] next[j].2 <= e.2 by {
                            if j < prev.len() {
                                assert(next[j] == prev[j]);
                            }
                        }
                        assert forall|j: int| 0 <= j < k implies #[trigger] next[j].2 < e.2 by {
                            assert(next[j] == prev[j]);
                        }
                    },
                }
            }
        }
        i += 1;
    }
}

/// The hash and modification count of a register, if it has been set.
fn bank_previous<T>(bank: &IntMap<RegisterValue<T>>, register: i32) -> (r: Option<(u128, u64)>)
    ensures
        r is Some <==> bank.contents().contains_key(register),
        r is Some ==> r.unwrap().0 == bank.contents()[register].value_hash && r.unwrap().1
            == bank.contents()[register].modification_count,
{
    match bank.get(&register) {
        Some(existing) => Some((existing.value_hash, existing.modification_count)),
        None => None,
    }
}

/// Stores a new value for a register.
fn bank_store<T>(
    bank: &mut IntMap<RegisterValue<T>>,
    register: i32,
    value: T,
    value_hash: u128,
    timestamp: u64,
    source_position: Option<usize>,
    previous: Option<(u128, u64)>,
)
    requires
        previous is Some <==> old(bank).contents().contains_key(register),
        previous is Some ==> previous.unwrap().1 == old(bank).contents()[register].modification_count,
        previous is Some ==> previous.unwrap().1 < u64::MAX,
    ensures
        bank_after_write(old(bank).contents(), final(bank).contents(), register, value, value_hash, timestamp, source_position),
{
    let modification_count = match previous {
        Some((_, c)) => c + 1,
        None => 1,
    };
    bank.insert(
        register,
        RegisterValue {
            value,
            value_hash,
            last_modified: timestamp,
            modification_count,
            last_modified_source: source_position,
        },
    );
    proof {
        assert(final(bank).contents().dom() =~= old(bank).contents().dom().insert(register));
    }
}

/// Appends the snapshot bytes of one register bank.
fn push_bank<T>(out: &mut Vec<u8>, bank: &IntMap<RegisterValue<T>>)
    ensures
        final(out)@ == old(out)@ + bank_bytes(bank.entry_seq()),
{
    let ghost start = out@;
    let n = bank.len();
    let mut i: usize = 0;
    while i < n
        invariant
            n == bank.entry_seq().len(),
            i <= n,
            out@ == start + bank_bytes(bank.entry_seq().subrange(0, i as int)),
        decreases n - i,
    {
        push_i32(out, bank.key_at(i));
        push_u128(out, bank.value_at(i).value_hash);
        proof {
            let t = bank.entry_seq().subrange(0, i + 1);
            assert(t.drop_last() =~= bank.entry_seq().subrange(0, i as int));
        }
        i += 1;
    }
    proof {
        assert(bank.entry_seq().subrange(0, n as int) =~= bank.entry_seq());
    }
}

} // verus!
