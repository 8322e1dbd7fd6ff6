//! The resolved buffers of an asset, and byte slices out of them.

use crate::document::ViewDecl;
use crate::error::ImportError;
use vstd::prelude::*;
use vstd::slice::slice_subrange;

verus! {

/// Buffer data returned from an import: one byte sequence for each buffer
/// the document declares, in document order.
#[derive(Clone, Debug)]
pub struct Buffers(Vec<Vec<u8>>);

/// The byte sequences that a list of byte vectors holds.
pub open spec fn byte_sequences(data: Seq<Vec<u8>>) -> Seq<Seq<u8>> {
    Seq::new(data.len(), |i: int| data[i]@)
}

/// What a view selects from the buffers: nothing where its buffer does not
/// exist, the bytes from `offset` up to `offset + length` where they lie in
/// the buffer, and a bounds violation where they do not.
pub open spec fn view_bytes(buffers: Seq<Seq<u8>>, view: ViewDecl) -> Result<
    Option<Seq<u8>>,
    ImportError,
> {
    if view.buffer >= buffers.len() {
        Ok(None)
    } else if view.offset + view.length > buffers[view.buffer as int].len() {
        Err(
            ImportError::BoundsViolation {
                buffer: view.buffer,
                offset: view.offset,
                length: view.length,
            },
        )
    } else {
        Ok(
            Some(
                buffers[view.buffer as int].subrange(
                    view.offset as int,
                    view.offset + view.length,
                ),
            ),
        )
    }
}

/// A view that reaches past the end of an existing buffer is a bounds
/// violation, never an absent result.
pub proof fn lemma_view_out_of_bounds(buffers: Seq<Seq<u8>>, view: ViewDecl)
    requires
        view.buffer < buffers.len(),
        view.offset + view.length > buffers[view.buffer as int].len(),
    ensures
        view_bytes(buffers, view) == Err::<Option<Seq<u8>>, ImportError>(
            ImportError::BoundsViolation {
                buffer: view.buffer,
                offset: view.offset,
                length: view.length,
            },
        ),
{
}

/// A view that starts at 0 and is as long as its buffer selects the whole
/// buffer.
pub proof fn lemma_view_of_whole_buffer(buffers: Seq<Seq<u8>>, view: ViewDecl)
    requires
        view.buffer < buffers.len(),
        view.offset == 0,
        view.length == buffers[view.buffer as int].len(),
    ensures
        view_bytes(buffers, view) == Ok::<Option<Seq<u8>>, ImportError>(
            Some(buffers[view.buffer as int]),
        ),
{
    let bytes = buffers[view.buffer as int];
    assert(bytes.subrange(0, bytes.len() as int) =~= bytes);
}

/// A view of a buffer that was never declared selects nothing; that is no
/// error.
pub proof fn lemma_view_of_absent_buffer(buffers: Seq<Seq<u8>>, view: ViewDecl)
    requires
        view.buffer >= buffers.len(),
    ensures
        view_bytes(buffers, view) == Ok::<Option<Seq<u8>>, ImportError>(None),
{
}

impl Buffers {
    /// The bytes of each buffer, in document order.
    pub closed spec fn contents(&self) -> Seq<Seq<u8>> {
        byte_sequences(self.0@)
    }

    /// Every length is counted by a machine word: the number of buffers and
    /// the number of bytes of each.
    pub open spec fn lengths_fit(&self) -> bool {
        &&& self.contents().len() <= usize::MAX
        &&& forall|i: int|
            0 <= i < self.contents().len() ==> (#[trigger] self.contents()[i]).len() <= usize::MAX
    }

    /// The lengths of loaded buffers fit a machine word. So a view whose
    /// offset and length add up to more than `usize::MAX` reaches past the
    /// end of whatever buffer it names.
    pub proof fn lemma_lengths_fit(&self)
        ensures
            self.lengths_fit(),
    {
        assert(self.0.len() == self.0@.len());
        assert forall|i: int| 0 <= i < self.contents().len() implies (#[trigger] self.contents()[i]).len()
            <= usize::MAX by {
            assert(self.0@[i].len() == self.0@[i]@.len());
        }
    }

    /// Wraps the bytes obtained for the buffers of a document.
    pub(crate) fn new(data: Vec<Vec<u8>>) -> (r: Buffers)
        ensures
            r.contents() == byte_sequences(data@),
    {
        Buffers(data)
    }

    /// The buffer at a position of the list, if there is one.
    fn get(&self, position: usize) -> (r: Option<&[u8]>)
        ensures
            r matches Some(bytes) ==> position < self.contents().len() && bytes@
                == self.contents()[position as int],
            r.is_none() ==> position >= self.contents().len(),
    {
        if position < self.0.len() {
            Some(self.0[position].as_slice())
        } else {
            None
        }
    }

    /// Obtain the contents of a loaded buffer. An index that names no buffer,
    /// a negative one included, is answered with `None`.
    pub fn buffer(&self, index: isize) -> (r: Option<&[u8]>)
        ensures
            r matches Some(bytes) ==> 0 <= index < self.contents().len() && bytes@
                == self.contents()[index as int],
            r.is_none() ==> !(0 <= index < self.contents().len()),
            self.lengths_fit(),
    {
        proof {
            self.lemma_lengths_fit();
        }
        if index < 0 {
            None
        } else {
            self.get(index as usize)
        }
    }

    /// Obtain the contents of a loaded buffer view.
    ///
    /// A view of a buffer that does not exist selects nothing. A view that
    /// reaches past the end of its buffer is an error of the document.
    pub fn view(&self, view: &ViewDecl) -> (r: Result<Option<&[u8]>, ImportError>)
        ensures
            r matches Ok(Some(bytes)) ==> view_bytes(self.contents(), *view) == Ok::<
                Option<Seq<u8>>,
                ImportError,
            >(Some(bytes@)),
            r matches Ok(None) ==> view_bytes(self.contents(), *view) == Ok::<
                Option<Seq<u8>>,
                ImportError,
            >(None),
            r matches Err(e) ==> view_bytes(self.contents(), *view) == Err::<
                Option<Seq<u8>>,
                ImportError,
            >(e),
            self.lengths_fit(),
            view.buffer < self.contents().len() && view.offset + view.length > usize::MAX
                ==> r.is_err(),
    {
        proof {
            self.lemma_lengths_fit();
        }
        match self.get(view.buffer) {
            None => Ok(None),
            Some(data) => {
                let begin = view.offset;
                if view.length <= data.len() && begin <= data.len() - view.length {
                    Ok(Some(slice_subrange(data, begin, begin + view.length)))
                } else {
                    Err(
                        ImportError::BoundsViolation {
                            buffer: view.buffer,
                            offset: view.offset,
                            length: view.length,
                        },
                    )
                }
            },
        }
    }

    /// Take the loaded buffer data.
    pub fn take(self) -> (r: Vec<Vec<u8>>)
        ensures
            byte_sequences(r@) == self.contents(),
    {
        self.0
    }
}

} // verus!
