use rand::RngExt;
use subspace_consensus::piece_cache::{PieceCache, PieceCacheError, PIECE_SIZE, RECORD_SIZE};

fn random_piece() -> Vec<u8> {
    let mut piece = vec![0u8; PIECE_SIZE];
    rand::rng().fill(&mut piece[..]);
    piece
}

fn stored_count(cache: &PieceCache) -> usize {
    cache
        .contents()
        .into_iter()
        .filter(|(_offset, maybe_piece_index)| maybe_piece_index.is_some())
        .count()
}

#[test]
fn basic() {
    let mut disk_piece_cache = PieceCache::open(2);

    // Initially empty
    assert_eq!(stored_count(&disk_piece_cache), 0);

    // Write first piece into cache
    let first_piece = {
        let offset = 0u32;
        let piece_index = 0u64;
        let piece = random_piece();

        assert_eq!(disk_piece_cache.read_piece_index(offset), None);
        assert!(disk_piece_cache.read_piece(offset).is_none());

        disk_piece_cache.write_piece(offset, piece_index, &piece).unwrap();

        assert_eq!(disk_piece_cache.read_piece_index(offset), Some(piece_index));
        assert!(disk_piece_cache.read_piece(offset).is_some());
        piece
    };

    // One piece stored
    assert_eq!(stored_count(&disk_piece_cache), 1);

    // Write second piece into cache
    {
        let offset = 1u32;
        let piece_index = 10u64;
        let piece = random_piece();

        assert_eq!(disk_piece_cache.read_piece_index(offset), None);
        assert!(disk_piece_cache.read_piece(offset).is_none());

        disk_piece_cache.write_piece(offset, piece_index, &piece).unwrap();

        assert_eq!(disk_piece_cache.read_piece_index(offset), Some(piece_index));
        assert!(disk_piece_cache.read_piece(offset).is_some());
    }

    // Two pieces stored
    assert_eq!(stored_count(&disk_piece_cache), 2);

    // Writing beyond capacity fails
    assert!(matches!(
        disk_piece_cache.write_piece(2, 0, &vec![0u8; PIECE_SIZE]),
        Err(PieceCacheError::OffsetOutsideOfRange { .. })
    ));

    // Override works
    {
        let offset = 0u32;
        let piece_index = 13u64;
        let piece = random_piece();

        disk_piece_cache.write_piece(offset, piece_index, &piece).unwrap();

        assert_eq!(disk_piece_cache.read_piece_index(offset), Some(piece_index));
        assert!(disk_piece_cache.read_piece(offset).is_some());
        assert_ne!(disk_piece_cache.read_piece(offset).unwrap(), first_piece);
    }

    // Reopening from the persistent image works
    {
        let image = disk_piece_cache.into_image();
        let reopened = PieceCache::from_image(&image, 2).unwrap();
        // Two pieces stored
        assert_eq!(stored_count(&reopened), 2);
        assert_eq!(reopened.read_piece_index(0), Some(13));
        assert_eq!(reopened.read_piece_index(1), Some(10));
        assert_eq!(reopened.read_piece(0), disk_piece_cache.read_piece(0));
    }

    // Wiping works
    {
        disk_piece_cache.wipe();
        assert_eq!(stored_count(&disk_piece_cache), 0);
        assert_eq!(disk_piece_cache.capacity(), 2);
    }
}

#[test]
fn write_then_read_round_trip() {
    let mut cache = PieceCache::open(3);
    let piece = random_piece();
    cache.write_piece(1, 42, &piece).unwrap();
    assert_eq!(cache.read_piece(1), Some(piece.clone()));
    assert_eq!(cache.read_piece_index(1), Some(42));
    // the neighbours stay empty
    assert_eq!(cache.read_piece(0), None);
    assert_eq!(cache.read_piece(2), None);
}

#[test]
fn offset_outside_of_range_names_the_bounds() {
    let mut cache = PieceCache::open(2);
    let piece = vec![0u8; PIECE_SIZE];
    assert_eq!(
        cache.write_piece(2, 0, &piece),
        Err(PieceCacheError::OffsetOutsideOfRange { provided: 2, max: 2 })
    );
    assert_eq!(
        cache.write_piece(7, 0, &piece),
        Err(PieceCacheError::OffsetOutsideOfRange { provided: 7, max: 2 })
    );
}

#[test]
fn corrupt_image_is_rejected() {
    let image = vec![0u8; RECORD_SIZE];
    assert!(matches!(
        PieceCache::from_image(&image, 2),
        Err(PieceCacheError::Corrupted)
    ));
    let empty = PieceCache::open(2).into_image();
    assert_eq!(empty.len(), 2 * RECORD_SIZE);
    assert!(PieceCache::from_image(&empty, 2).is_ok());
}

#[test]
fn contents_lists_every_offset_in_order() {
    let mut cache = PieceCache::open(3);
    cache.write_piece(2, 5, &random_piece()).unwrap();
    let contents = cache.contents();
    assert_eq!(contents, vec![(0, None), (1, None), (2, Some(5))]);
}
