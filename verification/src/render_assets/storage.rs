//! Sizing of GPU storage buffers: how large a buffer is, how many elements it holds, and when
//! new data needs a new buffer. The buffers themselves live with the renderer.
use vstd::prelude::*;

verus! {

/// A storage buffer as far as its sizing goes: its name, its size in bytes and its element count.
pub struct Storage {
    pub name: String,
    /// Size of the buffer in bytes
    pub size: usize,
    /// Amount of elements in the buffer
    pub count: usize,
}

/// What an update asks of the renderer.
#[derive(Debug, Clone, Copy, PartialEq, Eq, Structural)]
pub enum StorageUpdate {
    /// No data: nothing to do
    Skip,
    /// Write the data into the current buffer
    Write,
    /// Replace the buffer by an empty one of `count` elements of `element_size` bytes, then
    /// write the data into it
    Recreate { count: usize, element_size: usize },
}

impl Storage {
    /// A storage of `count` elements of `element_size` bytes each.
    pub fn new(name: &str, count: usize, element_size: usize) -> (r: Self)
        requires
            count * element_size <= usize::MAX,
        ensures
            r.name@ == name@,
            r.size == count * element_size,
            r.count == count,
    {
        Self { name: name.to_owned(), size: count * element_size, count }
    }

    /// Sets a new size: a buffer of another size in bytes replaces the old one (the result is
    /// whether it did); one of the same size is kept as it is.
    pub fn resize(&mut self, count: usize, element_size: usize) -> (recreated: bool)
        requires
            count * element_size <= usize::MAX,
        ensures
            recreated == (count * element_size != old(self).size),
            recreated ==> final(self).size == count * element_size && final(self).count == count,
            !recreated ==> final(self).size == old(self).size && final(self).count == old(self).count,
            final(self).name@ == old(self).name@,
    {
        if count * element_size == self.size {
            return false;
        }
        self.size = count * element_size;
        self.count = count;
        true
    }

    /// Plans writing `byte_len` bytes holding `count` elements: nothing for no data, a write into
    /// the current buffer when the data fits, else a new buffer of `count` elements of
    /// `byte_len / count` bytes first.
    pub fn update(&mut self, byte_len: usize, count: usize) -> (r: StorageUpdate)
        requires
            byte_len == 0 || (count > 0 && byte_len % count == 0),
        ensures
            byte_len == 0 ==> r == StorageUpdate::Skip,
            0 < byte_len <= old(self).size ==> r == StorageUpdate::Write,
            byte_len > old(self).size ==> r == (StorageUpdate::Recreate {
                count,
                element_size: (byte_len / count) as usize,
            }) && final(self).size == byte_len && final(self).count == count,
            byte_len <= old(self).size ==> final(self).size == old(self).size && final(self).count
                == old(self).count,
            final(self).size >= byte_len,
            final(self).name@ == old(self).name@,
    {
        if byte_len == 0 {
            return StorageUpdate::Skip;
        }
        if byte_len > self.size {
            let element_size = byte_len / count;
            assert(count * element_size == byte_len) by (nonlinear_arith)
                requires
                    count > 0,
                    byte_len % count == 0,
                    element_size == byte_len / count,
            ;
            self.resize(count, element_size);
            return StorageUpdate::Recreate { count, element_size };
        }
        StorageUpdate::Write
    }

    /// The amount of elements in the buffer
    pub fn count(&self) -> (r: usize)
        ensures
            r == self.count,
    {
        self.count
    }

    /// The size of the buffer in bytes
    pub fn size(&self) -> (r: usize)
        ensures
            r == self.size,
    {
        self.size
    }

    /// The size of a single element in the buffer
    pub fn element_size(&self) -> (r: usize)
        requires
            self.count > 0,
        ensures
            r == self.size / self.count,
    {
        self.size / self.count
    }
}

/// Storage of the instanced transforms.
pub struct TransformStorage(pub Storage);

/// Storage of the lights.
pub struct LightStorage(pub Storage);

impl TransformStorage {
    /// Transform storage of `n` elements of `size` bytes each
    pub fn new(n: usize, size: usize) -> (r: Self)
        requires
            n * size <= usize::MAX,
        ensures
            r.0.name@ == "transform"@,
            r.0.size == n * size,
            r.0.count == n,
    {
        Self(Storage::new("transform", n, size))
    }
}

impl LightStorage {
    /// Light storage of `n` elements of `size` bytes each
    pub fn new(n: usize, size: usize) -> (r: Self)
        requires
            n * size <= usize::MAX,
        ensures
            r.0.name@ == "light"@,
            r.0.size == n * size,
            r.0.count == n,
    {
        Self(Storage::new("light", n, size))
    }
}

impl std::ops::Deref for TransformStorage {
    type Target = Storage;

    fn deref(&self) -> (r: &Storage)
        ensures
            *r == self.0,
    {
        &self.0
    }
}

impl std::ops::Deref for LightStorage {
    type Target = Storage;

    fn deref(&self) -> (r: &Storage)
        ensures
            *r == self.0,
    {
        &self.0
    }
}

} // verus!
