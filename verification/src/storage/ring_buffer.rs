//! A ring of bytes whose storage can grow.
use vstd::prelude::*;

verus! {

/// The bytes that a socket has buffered, oldest first, in storage of a given capacity.
///
/// Storage that the buffer owns can grow and be given back; lent storage cannot.
pub struct SocketBuffer {
    storage: Vec<u8>,
    read_at: usize,
    length: usize,
    owned: bool,
}

/// What a buffer holds, and how much it has room for.
#[verifier::ext_equal]
pub struct BufferView {
    pub contents: Seq<u8>,
    pub capacity: nat,
    pub owned: bool,
}

/// The place in storage of the byte `i` places after the one at `read_at`.
spec fn slot(read_at: int, i: int, capacity: int) -> int {
    if read_at + i < capacity {
        read_at + i
    } else {
        read_at + i - capacity
    }
}

/// Grows a vector's allocation by `Vec::try_reserve_exact`: the bytes in it stay as they
/// are. A request for nothing is met. Any other can fail at any time, and does fail where the
/// vector would be longer than an allocation can be. The result says whether it was met.
#[verifier::external_body]
fn try_reserve_exact(storage: &mut Vec<u8>, additional: usize) -> (done: bool)
    ensures
        final(storage)@ == old(storage)@,
        additional == 0 ==> done,
        old(storage)@.len() + additional > isize::MAX && additional > 0 ==> !done,
{
    storage.try_reserve_exact(additional).is_ok()
}

/// Fills `storage`, which is empty, with `capacity` zero bytes, where room for them was
/// reserved: `None` where it was not.
pub fn zeroed(reserved: bool, storage: Vec<u8>, capacity: usize) -> (filled: Option<Vec<u8>>)
    requires
        storage@.len() == 0,
    ensures
        filled is Some <==> reserved,
        filled matches Some(bytes) ==> bytes@ == Seq::new(capacity as nat, |i: int| 0u8),
{
    if !reserved {
        return None;
    }
    let mut storage = storage;
    storage.resize(capacity, 0);
    assert(storage@ =~= Seq::new(capacity as nat, |i: int| 0u8));
    Some(storage)
}

/// Storage of `capacity` zero bytes, `None` where it cannot be allocated.
pub fn try_zeroed_socket_storage(capacity: usize) -> (storage: Option<Vec<u8>>)
    ensures
        storage matches Some(bytes) ==> bytes@ == Seq::new(capacity as nat, |i: int| 0u8),
        capacity == 0 ==> storage is Some,
        capacity > isize::MAX ==> storage is None,
        storage is None ==> refused_by_allocator(capacity),
{
    let mut storage: Vec<u8> = Vec::new();
    let reserved = try_reserve_exact(&mut storage, capacity);
    zeroed(reserved, storage, capacity)
}

/// Whether the allocator was asked for room for `capacity` bytes, and had none.
pub closed spec fn refused_by_allocator(capacity: usize) -> bool {
    exists|storage: &mut Vec<u8>| #[trigger]
        call_ensures(try_reserve_exact, (storage, capacity), false)
}

/// Whether a buffer can stay as it is when it is to grow to `new_capacity`: its storage is
/// lent, or large enough already, or there is none to be had.
pub open spec fn growth_refused(buffer: BufferView, new_capacity: usize) -> bool {
    ||| !buffer.owned
    ||| new_capacity <= buffer.capacity
    ||| call_ensures(try_zeroed_socket_storage, (new_capacity,), None) && refused_by_allocator(
        new_capacity,
    )
}

impl View for SocketBuffer {
    type V = BufferView;

    closed spec fn view(&self) -> BufferView {
        BufferView {
            contents: Seq::new(
                self.length as nat,
                |i: int| self.storage@[slot(self.read_at as int, i, self.storage@.len() as int)],
            ),
            capacity: self.storage@.len(),
            owned: self.owned,
        }
    }
}

impl SocketBuffer {
    /// The positions lie in the storage.
    pub closed spec fn wf(&self) -> bool {
        &&& self.length <= self.storage@.len()
        &&& self.read_at < self.storage@.len() || self.read_at == 0
    }

    /// An empty buffer that owns `storage`.
    pub fn new(storage: Vec<u8>) -> (buffer: SocketBuffer)
        ensures
            buffer.wf(),
            buffer@ == (BufferView {
                contents: Seq::empty(),
                capacity: storage@.len(),
                owned: true,
            }),
    {
        SocketBuffer { storage, read_at: 0, length: 0, owned: true }
    }

    /// An empty buffer that `storage` is lent to.
    pub fn lent(storage: Vec<u8>) -> (buffer: SocketBuffer)
        ensures
            buffer.wf(),
            buffer@ == (BufferView {
                contents: Seq::empty(),
                capacity: storage@.len(),
                owned: false,
            }),
    {
        SocketBuffer { storage, read_at: 0, length: 0, owned: false }
    }

    /// How many bytes the storage has room for.
    pub fn capacity(&self) -> (capacity: usize)
        ensures
            capacity == self@.capacity,
    {
        self.storage.len()
    }

    /// How many bytes are buffered.
    pub fn len(&self) -> (len: usize)
        ensures
            len == self@.contents.len(),
    {
        self.length
    }

    /// Whether no byte is buffered.
    pub fn is_empty(&self) -> (empty: bool)
        ensures
            empty == (self@.contents.len() == 0),
    {
        self.length == 0
    }

    /// How many more bytes fit.
    pub fn window(&self) -> (window: usize)
        requires
            self.wf(),
        ensures
            window == self@.capacity - self@.contents.len(),
    {
        self.storage.len() - self.length
    }

    /// Whether no more byte fits.
    pub fn is_full(&self) -> (full: bool)
        requires
            self.wf(),
        ensures
            full == (self@.contents.len() == self@.capacity),
    {
        self.window() == 0
    }

    /// The place in storage of the byte `offset` places after the oldest one.
    fn position(&self, offset: usize) -> (at: usize)
        requires
            self.wf(),
            offset < self.storage@.len(),
        ensures
            at == slot(self.read_at as int, offset as int, self.storage@.len() as int),
            at < self.storage@.len(),
    {
        let tail: usize = self.storage.len() - self.read_at;
        if offset < tail {
            self.read_at + offset
        } else {
            offset - tail
        }
    }

    /// Appends as many of the bytes of `data` as fit, from the front. The result is how many
    /// that is.
    pub fn enqueue_slice(&mut self, data: &[u8]) -> (count: usize)
        requires
            old(self).wf(),
        ensures
            final(self).wf(),
            count == if data@.len() <= old(self)@.capacity - old(self)@.contents.len() {
                data@.len() as int
            } else {
                old(self)@.capacity - old(self)@.contents.len()
            },
            final(self)@ == (BufferView {
                contents: old(self)@.contents + data@.take(count as int),
                ..old(self)@
            }),
    {
        if self.length == 0 {
            self.read_at = 0;
        }
        let window: usize = self.window();
        let count: usize = if data.len() <= window {
            data.len()
        } else {
            window
        };
        let ghost before = old(self)@.contents;
        let capacity: usize = self.storage.len();
        assert(self@.contents =~= before);
        let mut index: usize = 0;
        while index < count
            invariant
                self.wf(),
                index <= count <= data@.len(),
                self.storage@.len() == capacity,
                self.owned == old(self).owned,
                before.len() + count <= capacity,
                self.length == before.len() + index,
                self@.contents == before + data@.take(index as int),
            decreases count - index,
        {
            let ghost held = self@.contents;
            let at: usize = self.position(self.length);
            self.storage.set(at, data[index]);
            self.length = self.length + 1;
            index = index + 1;
            assert(self@.contents =~= held.push(data@[index - 1]));
            assert(before + data@.take(index as int) =~= held.push(data@[index - 1]));
        }
        count
    }

    /// Takes up to `size` of the oldest bytes out.
    pub fn dequeue_many(&mut self, size: usize) -> (bytes: Vec<u8>)
        requires
            old(self).wf(),
        ensures
            final(self).wf(),
            bytes@.len() == if size <= old(self)@.contents.len() {
                size as nat
            } else {
                old(self)@.contents.len()
            },
            bytes@ == old(self)@.contents.take(bytes@.len() as int),
            final(self)@ == (BufferView {
                contents: old(self)@.contents.skip(bytes@.len() as int),
                ..old(self)@
            }),
    {
        let bytes = self.read_allocated(0, size);
        let count: usize = bytes.len();
        let ghost before = self@.contents;
        if count > 0 {
            let next: usize = if count < self.storage.len() {
                self.position(count)
            } else {
                self.read_at
            };
            self.read_at = next;
            self.length = self.length - count;
        }
        assert(bytes@ =~= before.take(count as int));
        assert(self@.contents =~= before.skip(count as int));
        bytes
    }

    /// Copies up to `size` bytes, from `offset` bytes after the oldest one on.
    pub fn read_allocated(&self, offset: usize, size: usize) -> (bytes: Vec<u8>)
        requires
            self.wf(),
        ensures
            offset >= self@.contents.len() ==> bytes@ == Seq::<u8>::empty(),
            offset < self@.contents.len() ==> bytes@ == self@.contents.subrange(
                offset as int,
                if offset + size <= self@.contents.len() {
                    offset + size
                } else {
                    self@.contents.len() as int
                },
            ),
    {
        let mut bytes: Vec<u8> = Vec::new();
        if offset >= self.length {
            return bytes;
        }
        let left: usize = self.length - offset;
        let count: usize = if size <= left {
            size
        } else {
            left
        };
        let ghost contents = self@.contents;
        let mut index: usize = 0;
        while index < count
            invariant
                self.wf(),
                contents == self@.contents,
                index <= count,
                offset + count <= self.length,
                bytes@ == contents.subrange(offset as int, offset + index),
            decreases count - index,
        {
            let at: usize = self.position(offset + index);
            assert(contents[offset + index] == self.storage@[at as int]);
            bytes.push(self.storage[at]);
            index = index + 1;
            assert(bytes@ =~= contents.subrange(offset as int, offset + index));
        }
        bytes
    }

    /// Grows the storage to `new_capacity` bytes, keeping what is buffered. Lent storage is
    /// not grown, storage is not shrunk, and the allocation can fail: the buffer then stays
    /// as it is. The result says whether the storage was grown.
    pub fn try_grow(&mut self, new_capacity: usize) -> (grown: bool)
        requires
            old(self).wf(),
        ensures
            final(self).wf(),
            grown ==> old(self)@.owned && new_capacity > old(self)@.capacity && final(self)@ == (
            BufferView { capacity: new_capacity as nat, ..old(self)@ }),
            !grown ==> final(self)@ == old(self)@ && growth_refused(old(self)@, new_capacity),
            new_capacity > isize::MAX ==> !grown,
    {
        if !self.owned || new_capacity <= self.storage.len() {
            return false;
        }
        self.grow_into(try_zeroed_socket_storage(new_capacity))
    }

    /// Moves what is buffered into `storage`, where there is any: unless the buffer's own
    /// storage is lent, or `storage` has no more room than it, when the buffer stays as it is.
    /// The result says whether the buffer was moved.
    pub fn grow_into(&mut self, storage: Option<Vec<u8>>) -> (grown: bool)
        requires
            old(self).wf(),
        ensures
            final(self).wf(),
            grown == (old(self)@.owned && storage is Some && storage->0@.len() > old(
                self,
            )@.capacity),
            final(self)@ == if grown {
                BufferView { capacity: storage->0@.len(), ..old(self)@ }
            } else {
                old(self)@
            },
    {
        match storage {
            Some(storage) => {
                if !self.owned || storage.len() <= self.storage.len() {
                    return false;
                }
                self.install(storage);
                true
            },
            None => false,
        }
    }

    /// Moves what is buffered into `storage`, which has room for it.
    fn install(&mut self, storage: Vec<u8>)
        requires
            old(self).wf(),
            old(self)@.contents.len() <= storage@.len(),
        ensures
            final(self).wf(),
            final(self)@ == (BufferView { capacity: storage@.len(), ..old(self)@ }),
    {
        let ghost contents = self@.contents;
        let mut storage = storage;
        let ghost capacity = storage@.len();
        let mut index: usize = 0;
        while index < self.length
            invariant
                self.wf(),
                contents == self@.contents,
                contents.len() == self.length,
                index <= self.length <= capacity,
                storage@.len() == capacity,
                forall|j: int| 0 <= j < index ==> storage@[j] == #[trigger] contents[j],
            decreases self.length - index,
        {
            let at: usize = self.position(index);
            assert(contents[index as int] == self.storage@[at as int]);
            storage.set(index, self.storage[at]);
            index = index + 1;
        }
        self.storage = storage;
        self.read_at = 0;
        assert(self@.contents =~= contents);
    }

    /// Gives the storage back if the buffer owns it, and with it what is buffered. Lent
    /// storage stays as it is.
    pub fn release_owned(&mut self)
        requires
            old(self).wf(),
        ensures
            final(self).wf(),
            final(self)@ == released(old(self)@),
    {
        if self.owned {
            self.storage = Vec::new();
            self.read_at = 0;
            self.length = 0;
            assert(self@.contents =~= Seq::<u8>::empty());
        }
    }
}

/// A buffer once its storage was given back.
pub open spec fn released(buffer: BufferView) -> BufferView {
    if buffer.owned {
        BufferView { contents: Seq::empty(), capacity: 0, owned: true }
    } else {
        buffer
    }
}

/// Giving storage back leaves a buffer that owned it empty and without room, and one that it was
/// lent to as it was.
pub proof fn law_release_empties_owned_storage(buffer: BufferView)
    ensures
        released(buffer).owned == buffer.owned,
        buffer.owned ==> released(buffer).capacity == 0 && released(buffer).contents.len() == 0,
        !buffer.owned ==> released(buffer) == buffer,
        released(released(buffer)) == released(buffer),
{
}

/// A buffer that owns its storage is refused more only where the allocator had none to give.
pub proof fn law_growth_is_refused_for_want_of_storage(buffer: BufferView, new_capacity: usize)
    requires
        buffer.owned,
        new_capacity > buffer.capacity,
        growth_refused(buffer, new_capacity),
    ensures
        refused_by_allocator(new_capacity),
        new_capacity > 0,
{
}

} // verus!
