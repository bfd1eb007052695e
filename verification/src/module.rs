//! One module of an open process, and the snapshot of its memory that scans
//! run on.

use crate::memory::{accept_read, read_buf, read_view, ReadError};
use crate::pattern::MemoryPattern;
use crate::process::{AttachError, ModuleBounds, ProcessHandle};
use crate::scan::{byte_matches, element_matches};
use vstd::prelude::*;

verus! {

/// A module of an open process: the handle of the process, the bounds of the
/// module's image, and the captured copy of that image while there is one.
#[derive(Debug)]
pub struct ProgramModule {
    pub handle: ProcessHandle,
    pub bounds: ModuleBounds,
    pub snapshot: Option<Vec<u8>>,
}

/// The state of a `ProgramModule`, with the snapshot as a sequence of bytes.
pub struct ModuleState {
    pub handle: ProcessHandle,
    pub bounds: ModuleBounds,
    pub snapshot: Option<Seq<u8>>,
}

impl ModuleState {
    /// The number of bytes in the module's image.
    pub open spec fn len(self) -> int {
        self.bounds.1 - self.bounds.0
    }

    /// The bounds enclose at least one byte, and a snapshot, if there is one,
    /// holds the whole image.
    pub open spec fn wf(self) -> bool {
        &&& self.bounds.0 < self.bounds.1
        &&& self.snapshot matches Some(image) ==> image.len() == self.len()
    }

    /// Whether a snapshot is held.
    pub open spec fn is_captured(self) -> bool {
        self.snapshot is Some
    }

    /// The state with `image` as its snapshot.
    pub open spec fn capture(self, image: Seq<u8>) -> ModuleState {
        ModuleState { snapshot: Some(image), ..self }
    }

    /// The state without a snapshot.
    pub open spec fn release(self) -> ModuleState {
        ModuleState { snapshot: None, ..self }
    }

    /// What becomes of the state when a read of the image ends as `read`: the
    /// bytes become the snapshot where the read gave all of them; a failed or
    /// short read is an error.
    pub open spec fn load(self, read: Result<Seq<u8>, i32>) -> Result<ModuleState, ReadError> {
        match accept_read(read, self.len()) {
            Ok(image) => Ok(self.capture(image)),
            Err(error) => Err(error),
        }
    }
}

impl View for ProgramModule {
    type V = ModuleState;

    open spec fn view(&self) -> ModuleState {
        ModuleState {
            handle: self.handle,
            bounds: self.bounds,
            snapshot: match self.snapshot {
                Some(image) => Some(image@),
                None => None,
            },
        }
    }
}

/// Whatever is captured and released, the handle and the bounds stay, the
/// state stays well formed, and a capture leaves a snapshot of the image's
/// length.
pub proof fn lemma_lifecycle_keeps_module(state: ModuleState, read: Result<Seq<u8>, i32>)
    requires
        state.wf(),
    ensures
        state.release().wf(),
        state.release().handle == state.handle,
        state.release().bounds == state.bounds,
        state.load(read) matches Ok(next) ==> {
            &&& next.wf()
            &&& next.handle == state.handle
            &&& next.bounds == state.bounds
            &&& next.snapshot == Some(read.unwrap())
            &&& read.unwrap().len() == state.len()
        },
{
}

/// After a release the module takes a new capture exactly where the read
/// gives as many bytes as the capture before had, and then holds as many.
pub proof fn lemma_capture_after_release(
    state: ModuleState,
    first: Result<Seq<u8>, i32>,
    second: Result<Seq<u8>, i32>,
)
    requires
        state.wf(),
        state.load(first) is Ok,
    ensures
        ({
            let released = state.load(first).unwrap().release();
            &&& released.load(second) is Ok <==> second is Ok && second.unwrap().len()
                == first.unwrap().len()
            &&& released.load(second) matches Ok(again) ==> again.snapshot.unwrap().len()
                == state.load(first).unwrap().snapshot.unwrap().len()
        }),
{
}

/// To release twice is to release once, and to release where nothing is
/// captured changes nothing.
pub proof fn lemma_release_twice(state: ModuleState)
    ensures
        state.release().release() == state.release(),
        !state.is_captured() ==> state.release() == state,
{
}

impl ProgramModule {
    /// The handle and the bounds are as `view` shows them, and the snapshot
    /// holds the whole image.
    pub open spec fn wf(&self) -> bool {
        self@.wf()
    }

    /// The module of the process behind `handle` whose image lies in `bounds`,
    /// with no snapshot yet.
    ///
    /// Fails where the bounds enclose no byte.
    pub fn new(handle: ProcessHandle, bounds: ModuleBounds) -> (r: Result<
        ProgramModule,
        AttachError,
    >)
        ensures
            match r {
                Ok(module) => {
                    &&& bounds.0 < bounds.1
                    &&& module.handle == handle
                    &&& module.bounds == bounds
                    &&& module.snapshot is None
                    &&& module.wf()
                },
                Err(error) => {
                    &&& bounds.0 >= bounds.1
                    &&& error == AttachError::InvalidBounds { start: bounds.0, end: bounds.1 }
                },
            },
    {
        if bounds.0 < bounds.1 {
            Ok(ProgramModule { handle, bounds, snapshot: None })
        } else {
            Err(AttachError::InvalidBounds { start: bounds.0, end: bounds.1 })
        }
    }

    /// Whether the module is well formed.
    pub fn is_well_formed(&self) -> (r: bool)
        ensures
            r == self.wf(),
    {
        if self.bounds.0 < self.bounds.1 {
            match &self.snapshot {
                Some(image) => image.len() == self.bounds.1 - self.bounds.0,
                None => true,
            }
        } else {
            false
        }
    }

    /// The address and the number of bytes of the read that a capture needs:
    /// the whole image, from its first byte.
    pub fn snapshot_request(&self) -> (r: (usize, usize))
        requires
            self.wf(),
        ensures
            r.0 == self.bounds.0,
            r.1 == self@.len(),
    {
        (self.bounds.0, self.bounds.1 - self.bounds.0)
    }

    /// Takes what a read of the image gave as the new snapshot, in place of
    /// the one before if there was one.
    ///
    /// Fails, and keeps the module as it was, where the read failed or gave
    /// another number of bytes than the image has.
    pub fn load_snapshot(&mut self, read: Result<Vec<u8>, i32>) -> (r: Result<(), ReadError>)
        requires
            old(self).wf(),
        ensures
            match old(self)@.load(read_view(read)) {
                Ok(next) => r is Ok && final(self)@ == next,
                Err(error) => r == Err::<(), ReadError>(error) && *final(self) == *old(self),
            },
            final(self).wf(),
    {
        let expected: usize = self.bounds.1 - self.bounds.0;
        match read_buf(read, expected) {
            Ok(image) => {
                self.snapshot = Some(image);
                Ok(())
            },
            Err(error) => Err(error),
        }
    }

    /// Drops the snapshot, if there is one.
    pub fn free_snapshot(&mut self)
        ensures
            final(self)@ == old(self)@.release(),
    {
        self.snapshot = None;
    }

    /// The address of the byte at `offset` in the image.
    pub fn get_offset(&self, offset: usize) -> (address: usize)
        requires
            self.bounds.0 + offset <= usize::MAX,
        ensures
            address == self.bounds.0 + offset,
    {
        self.bounds.0 + offset
    }

    /// Looks for `pattern` in the captured image and reports the smallest
    /// position at which it matches.
    ///
    /// A position is tried only where the whole pattern, `pattern.offset`
    /// bytes behind it, lies inside the image. The first and the last element
    /// are compared before the ones between them.
    pub fn search_memory(&self, pattern: &MemoryPattern) -> (r: Option<usize>)
        requires
            self@.is_captured(),
            pattern.wf(),
        ensures
            r == pattern.first_match(self@.snapshot.unwrap()),
    {
        let memory = match &self.snapshot {
            Some(memory) => memory,
            None => { return None; },
        };
        assert(memory@ == self@.snapshot.unwrap());
        let data = &pattern.data;
        let data_len: usize = data.len();
        let offset: usize = pattern.offset;
        let memory_len: usize = memory.len();

        if offset > memory_len || data_len > memory_len - offset {
            assert(forall|q: int| !pattern.matches(memory@, q));
            return None;
        }
        let last: usize = memory_len - offset - data_len;
        let mut pos: usize = 0;

        while pos <= last
            invariant
                self@.is_captured(),
                memory@ == self@.snapshot.unwrap(),
                data_len == pattern.data@.len(),
                data_len > 0,
                data@ == pattern.data@,
                offset == pattern.offset,
                memory_len == memory@.len(),
                last + offset + data_len == memory_len,
                pos <= last + 1,
                forall|q: int| 0 <= q < pos ==> !pattern.matches(memory@, q),
            decreases last + 1 - pos,
        {
            let first_byte_match = element_matches(memory[pos + offset], data[0]);
            let last_byte_match = element_matches(
                memory[pos + offset + data_len - 1],
                data[data_len - 1],
            );

            if first_byte_match && last_byte_match {
                let mut full_match = true;
                let mut i: usize = 1;

                while i < data_len - 1
                    invariant_except_break
                        full_match,
                        forall|k: int|
                            1 <= k < i ==> byte_matches(
                                memory@[pos + offset + k],
                                #[trigger] data@[k],
                            ),
                    invariant
                        0 < data_len == data@.len(),
                        memory_len == memory@.len(),
                        1 <= i <= data_len,
                        pos + offset + data_len <= memory_len,
                    ensures
                        full_match ==> forall|k: int|
                            1 <= k < data_len - 1 ==> byte_matches(
                                memory@[pos + offset + k],
                                #[trigger] data@[k],
                            ),
                        !full_match ==> exists|k: int|
                            0 <= k < data_len && !byte_matches(
                                memory@[pos + offset + k],
                                #[trigger] data@[k],
                            ),
                    decreases data_len - i,
                {
                    if !element_matches(memory[pos + offset + i], data[i]) {
                        full_match = false;
                        break;
                    }
                    i += 1;
                }

                if full_match {
                    proof {
                        assert(pattern.first_matches(memory@, pos as int));
                        pattern.lemma_first_match_is(memory@, pos as int);
                    }
                    return Some(pos);
                }
            }
            assert(!pattern.matches(memory@, pos as int));
            pos += 1;
        }
        assert(forall|q: int| !pattern.matches(memory@, q));
        None
    }
}

} // verus!
