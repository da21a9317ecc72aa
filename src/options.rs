//! The open configuration and the per-volume open flags derived from it.
use vstd::prelude::*;

verus! {

/// Options and flags which configure how a split file is opened.
///
/// All six flags start as `false`; each setter changes one of them and
/// hands the builder back for chaining.
#[derive(Clone, Copy, Debug, PartialEq, Eq, Structural)]
pub struct OpenOptions {
    pub read: bool,
    pub write: bool,
    pub append: bool,
    pub truncate: bool,
    pub create: bool,
    pub create_new: bool,
}

impl OpenOptions {
    /// Creates a blank set of options, every flag `false`.
    pub fn new() -> (r: OpenOptions)
        ensures
            r == (OpenOptions {
                read: false,
                write: false,
                append: false,
                truncate: false,
                create: false,
                create_new: false,
            }),
    {
        OpenOptions {
            read: false,
            write: false,
            append: false,
            truncate: false,
            create: false,
            create_new: false,
        }
    }

    /// The options of a read-only open.
    pub fn reading() -> (r: OpenOptions)
        ensures
            r == (OpenOptions {
                read: true,
                write: false,
                append: false,
                truncate: false,
                create: false,
                create_new: false,
            }),
    {
        let mut o = OpenOptions::new();
        o.read(true);
        o
    }

    /// The options of a write-only open that creates the file if it does
    /// not exist and truncates it if it does.
    pub fn creating() -> (r: OpenOptions)
        ensures
            r == (OpenOptions {
                read: false,
                write: true,
                append: false,
                truncate: true,
                create: true,
                create_new: false,
            }),
    {
        let mut o = OpenOptions::new();
        o.write(true).create(true).truncate(true);
        o
    }

    /// Sets the option for read access.
    pub fn read(&mut self, read: bool) -> (r: &mut OpenOptions)
        ensures
            *r == (OpenOptions { read, ..*old(self) }),
            *final(self) == *final(r),
    {
        self.read = read;
        self
    }
    /// Sets the option for write access.
    pub fn write(&mut self, write: bool) -> (r: &mut OpenOptions)
        ensures
            *r == (OpenOptions { write, ..*old(self) }),
            *final(self) == *final(r),
    {
        self.write = write;
        self
    }

    /// Sets the option for append mode: the file is positioned at its
    /// logical end once it is opened.
    pub fn append(&mut self, append: bool) -> (r: &mut OpenOptions)
        ensures
            *r == (OpenOptions { append, ..*old(self) }),
            *final(self) == *final(r),
    {
        self.append = append;
        self
    }

    /// Sets the option for truncating a previous file: the first volume is
    /// emptied and every continuation volume is removed.
    pub fn truncate(&mut self, truncate: bool) -> (r: &mut OpenOptions)
        ensures
            *r == (OpenOptions { truncate, ..*old(self) }),
            *final(self) == *final(r),
    {
        self.truncate = truncate;
        self
    }

    /// Sets the option for creating the file if it does not exist yet.
    pub fn create(&mut self, create: bool) -> (r: &mut OpenOptions)
        ensures
            *r == (OpenOptions { create, ..*old(self) }),
            *final(self) == *final(r),
    {
        self.create = create;
        self
    }

    /// Sets the option to always create a new file: opening fails if the
    /// first volume already exists.
    pub fn create_new(&mut self, create_new: bool) -> (r: &mut OpenOptions)
        ensures
            *r == (OpenOptions { create_new, ..*old(self) }),
            *final(self) == *final(r),
    {
        self.create_new = create_new;
        self
    }

    /// The flags with which one volume's file is opened.
    ///
    /// Only the volume opened first (`is_first`) receives the user's intent
    /// verbatim. Every other volume is an internal continuation: never
    /// exclusively created, never truncated at open, and writable and
    /// creatable whenever the logical file is writable or appendable.
    /// Native append mode is never used.
    pub fn volume_flags(&self, is_first: bool) -> (r: VolumeFlags)
        ensures
            r == volume_flags_spec(*self, is_first),
    {
        let cont = !is_first;
        VolumeFlags {
            read: self.read,
            write: if cont && self.append { true } else { self.write },
            create: if cont && (self.append || self.create_new || self.write) {
                true
            } else {
                self.create
            },
            create_new: if cont && self.create_new { false } else { self.create_new },
            truncate: if cont && self.truncate { false } else { self.truncate },
        }
    }
}

/// Truncation at open reaches the first volume alone, through its open
/// flags; no other volume is ever truncated, or exclusively created, when
/// it is opened.
pub proof fn truncate_applies_to_first_volume_only(o: OpenOptions)
    ensures
        volume_flags_spec(o, true).truncate == o.truncate,
        !volume_flags_spec(o, false).truncate,
        !volume_flags_spec(o, false).create_new,
{
}

/// The low-level flags for opening one volume's file.
#[derive(Clone, Copy, Debug, PartialEq, Eq, Structural)]
pub struct VolumeFlags {
    pub read: bool,
    pub write: bool,
    pub create: bool,
    pub create_new: bool,
    pub truncate: bool,
}

/// The flags of a volume: the user's own for the first volume opened, the
/// continuation flags for every other one.
pub open spec fn volume_flags_spec(o: OpenOptions, is_first: bool) -> VolumeFlags {
    if is_first {
        VolumeFlags {
            read: o.read,
            write: o.write,
            create: o.create,
            create_new: o.create_new,
            truncate: o.truncate,
        }
    } else {
        VolumeFlags {
            read: o.read,
            write: o.write || o.append,
            create: o.create || o.append || o.create_new || o.write,
            create_new: false,
            truncate: false,
        }
    }
}

} // verus!
