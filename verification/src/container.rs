//! The data-container builder: collects records into slices, one slice per
//! container in this build.

use vstd::prelude::*;

use crate::record::Record;

verus! {

/// How many records one slice holds at most.
pub const MAX_SLICE_RECORDS: usize = 10240;

/// How many slices one container holds at most.
pub const MAX_SLICE_COUNT: usize = 1;

/// Why a record was not added; the record rides along so the caller can
/// open a new container or slice and retry.
#[derive(Debug, PartialEq, Eq)]
pub enum AddRecordError {
    /// The container holds its full count of slices, or the record's
    /// reference does not match the open slice.
    ContainerFull(Record),
    /// The open slice reached its record cap and was sealed; the record
    /// belongs in the next slice.
    SliceFull(Record),
}

/// One slice being filled: its records and the reference they share.
#[derive(Debug)]
pub struct SliceBuilder {
    /// The records so far, in order.
    pub records: Vec<Record>,
    /// The reference of the first record, once one arrived.
    pub reference_sequence_id: Option<Option<usize>>,
}

impl SliceBuilder {
    /// An empty slice.
    pub fn new() -> (b: SliceBuilder)
        ensures
            b.records@ == Seq::<Record>::empty(),
            b.reference_sequence_id is None,
    {
        SliceBuilder { records: Vec::new(), reference_sequence_id: None }
    }
}

/// Collects records into slices and counts their bases.
#[derive(Debug)]
pub struct Builder {
    /// The slice being filled.
    pub slice_builder: SliceBuilder,
    /// The sealed slices.
    pub slice_builders: Vec<SliceBuilder>,
    /// The id of the first record of this container in its stream.
    pub record_counter: i64,
    /// The bases of every record added so far.
    pub base_count: i64,
}

impl Builder {
    /// An empty container starting at `record_counter`.
    pub fn new(record_counter: i64) -> (b: Builder)
        ensures
            b.slice_builder.records@ == Seq::<Record>::empty(),
            b.slice_builders@ == Seq::<SliceBuilder>::empty(),
            b.record_counter == record_counter,
            b.base_count == 0,
    {
        Builder {
            slice_builder: SliceBuilder::new(),
            slice_builders: Vec::new(),
            record_counter,
            base_count: 0,
        }
    }

    /// No record has been added.
    pub fn is_empty(&self) -> (r: bool)
        ensures
            r == (self.slice_builder.records@.len() == 0 && self.slice_builders@.len() == 0),
    {
        self.slice_builder.records.is_empty() && self.slice_builders.is_empty()
    }

    /// The bases of every record added so far.
    pub fn base_count(&self) -> (n: i64)
        ensures
            n == self.base_count,
    {
        self.base_count
    }

    /// Adds one record to the open slice. The record comes back when the
    /// container is full, when its reference does not match the slice, or,
    /// sealing the slice, when the slice just reached its cap.
    pub fn add_record(&mut self, record: Record) -> (r: Result<(), AddRecordError>)
        requires
            0 <= old(self).base_count,
            old(self).base_count + record.read_length <= i64::MAX,
        ensures
            ({
                let container_full = old(self).slice_builders@.len() >= MAX_SLICE_COUNT;
                let slice_full = !container_full && old(self).slice_builder.records@.len()
                    >= MAX_SLICE_RECORDS;
                let mismatch = !container_full && !slice_full && (old(
                    self,
                ).slice_builder.reference_sequence_id matches Some(id) && id
                    != record.reference_sequence_id);
                &&& (r matches Err(AddRecordError::SliceFull(_))) == slice_full
                &&& (r matches Err(AddRecordError::ContainerFull(_))) == (container_full
                    || mismatch)
                &&& (r is Ok) == (!container_full && !slice_full && !mismatch)
            }),
            match r {
                Ok(()) => final(self).slice_builder.records@ == old(
                    self,
                ).slice_builder.records@.push(record) && final(self).base_count == old(
                    self,
                ).base_count + record.read_length && final(self).slice_builders@ == old(
                    self,
                ).slice_builders@,
                Err(AddRecordError::ContainerFull(rec)) => rec == record && final(self).base_count
                    == old(self).base_count && final(self).slice_builder.records@ == old(
                    self,
                ).slice_builder.records@ && final(self).slice_builders@ == old(
                    self,
                ).slice_builders@,
                Err(AddRecordError::SliceFull(rec)) => rec == record && final(self).base_count
                    == old(self).base_count && final(self).slice_builder.records@ == Seq::<
                    Record,
                >::empty() && final(self).slice_builders@.len() == old(self).slice_builders@.len()
                    + 1,
            },
            final(self).record_counter == old(self).record_counter,
    {
        if self.slice_builders.len() >= MAX_SLICE_COUNT {
            return Err(AddRecordError::ContainerFull(record));
        }

        if self.slice_builder.records.len() >= MAX_SLICE_RECORDS {
            // seal the slice; the record belongs in the next one
            let mut sealed = SliceBuilder::new();
            core::mem::swap(&mut sealed, &mut self.slice_builder);
            self.slice_builders.push(sealed);
            return Err(AddRecordError::SliceFull(record));
        }

        let matches_slice = match &self.slice_builder.reference_sequence_id {
            None => true,
            Some(id) => match (id, &record.reference_sequence_id) {
                (Option::None, Option::None) => true,
                (Option::Some(a), Option::Some(b)) => *a == *b,
                _ => false,
            },
        };
        if !matches_slice {
            return Err(AddRecordError::ContainerFull(record));
        }

        if self.slice_builder.records.is_empty() {
            self.slice_builder.reference_sequence_id = Some(record.reference_sequence_id);
        }
        let read_length = record.read_length;
        self.slice_builder.records.push(record);
        self.base_count = self.base_count + read_length as i64;
        Ok(())
    }
}

} // verus!
