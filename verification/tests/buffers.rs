use gltf_import::{
    load_external_buffers, BufferDecl, BufferSource, Buffers, Document, ImportError, Progress,
    ViewDecl,
};

/// Buffers that hold `first` and nothing: two buffers, the second empty.
fn buffers(first: &[u8]) -> Buffers {
    let document = Document {
        buffers: vec![
            BufferDecl { length: first.len(), source: BufferSource::Bin },
            BufferDecl { length: 0, source: BufferSource::Uri("data:,".to_string()) },
        ],
        views: vec![],
    };
    match load_external_buffers("a.glb", document, Some(first.to_vec())) {
        Progress::Done(_, buffers) => buffers,
        other => panic!("expected a complete resolution, got {:?}", other),
    }
}

#[test]
fn buffer_is_found_by_its_index() {
    let b = buffers(&[1, 2, 3, 4]);
    assert_eq!(b.buffer(0), Some(&[1u8, 2, 3, 4][..]));
    assert_eq!(b.buffer(1), Some(&[][..]));
}

#[test]
fn index_that_names_no_buffer_is_absent() {
    let b = buffers(&[1, 2, 3, 4]);
    assert_eq!(b.buffer(-1), None);
    assert_eq!(b.buffer(2), None);
    assert_eq!(b.buffer(7), None);
    assert_eq!(b.buffer(isize::MAX), None);
    assert_eq!(b.buffer(isize::MIN), None);
}

#[test]
fn view_selects_a_range_of_its_buffer() {
    let b = buffers(&[1, 2, 3, 4]);
    assert_eq!(b.view(&ViewDecl { buffer: 0, offset: 1, length: 2 }), Ok(Some(&[2u8, 3][..])));
    assert_eq!(b.view(&ViewDecl { buffer: 0, offset: 4, length: 0 }), Ok(Some(&[][..])));
    assert_eq!(b.view(&ViewDecl { buffer: 0, offset: 3, length: 1 }), Ok(Some(&[4u8][..])));
}

#[test]
fn view_of_the_whole_buffer_is_the_buffer() {
    let b = buffers(&[1, 2, 3, 4]);
    assert_eq!(
        b.view(&ViewDecl { buffer: 0, offset: 0, length: 4 }),
        Ok(Some(&[1u8, 2, 3, 4][..]))
    );
    assert_eq!(b.view(&ViewDecl { buffer: 1, offset: 0, length: 0 }), Ok(Some(&[][..])));
}

#[test]
fn view_past_the_end_is_a_bounds_violation() {
    let b = buffers(&[1, 2, 3, 4]);
    assert_eq!(
        b.view(&ViewDecl { buffer: 0, offset: 0, length: 5 }),
        Err(ImportError::BoundsViolation { buffer: 0, offset: 0, length: 5 })
    );
    assert_eq!(
        b.view(&ViewDecl { buffer: 0, offset: 3, length: 2 }),
        Err(ImportError::BoundsViolation { buffer: 0, offset: 3, length: 2 })
    );
    assert_eq!(
        b.view(&ViewDecl { buffer: 0, offset: 5, length: 0 }),
        Err(ImportError::BoundsViolation { buffer: 0, offset: 5, length: 0 })
    );
    assert_eq!(
        b.view(&ViewDecl { buffer: 1, offset: 0, length: 1 }),
        Err(ImportError::BoundsViolation { buffer: 1, offset: 0, length: 1 })
    );
}

#[test]
fn view_whose_end_does_not_fit_a_machine_word_is_a_bounds_violation() {
    let b = buffers(&[1, 2, 3, 4]);
    assert_eq!(
        b.view(&ViewDecl { buffer: 0, offset: 2, length: usize::MAX }),
        Err(ImportError::BoundsViolation { buffer: 0, offset: 2, length: usize::MAX })
    );
    assert_eq!(
        b.view(&ViewDecl { buffer: 0, offset: usize::MAX, length: 2 }),
        Err(ImportError::BoundsViolation { buffer: 0, offset: usize::MAX, length: 2 })
    );
}

#[test]
fn view_of_an_undeclared_buffer_is_absent() {
    let b = buffers(&[1, 2, 3, 4]);
    assert_eq!(b.view(&ViewDecl { buffer: 2, offset: 0, length: 1 }), Ok(None));
    assert_eq!(b.view(&ViewDecl { buffer: usize::MAX, offset: 9, length: 9 }), Ok(None));
}

#[test]
fn take_hands_out_the_buffers() {
    assert_eq!(buffers(&[1, 2, 3, 4]).take(), vec![vec![1u8, 2, 3, 4], vec![]]);
}
