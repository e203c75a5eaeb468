use eidolon::chunk_manifest::{ChunkCoord, ChunkManifestManager, StructureChunk, StructureDeltaPacket};
use eidolon::error::WorldError;
use eidolon::hibernation::compute_adler32;

#[test]
fn test_structure_delta_packet_roundtrip() {
    let delta = StructureDeltaPacket {
        op_type: StructureDeltaPacket::OP_PLACED,
        structure_id: 1001,
        piece_id: 42,
        piece_type: 1,
        material_and_flags: 0x12,
        snapped_socket: 3,
        local_x_mm: 4000,
        local_y_mm: 0,
        local_z_mm: 0,
        local_yaw: 64,
        _padding: 0,
    };

    let mut buf = [0u8; 20];
    delta.write_to(&mut buf).expect("Write delta packet");

    let decoded = StructureDeltaPacket::read_from(&buf).expect("Read delta packet");
    assert_eq!(decoded, delta);
}

#[test]
fn delta_packet_layout_and_short_buffers() {
    let delta = StructureDeltaPacket {
        op_type: StructureDeltaPacket::OP_DESTROYED,
        structure_id: 0x0102_0304,
        piece_id: 5,
        piece_type: 6,
        material_and_flags: 7,
        snapped_socket: 8,
        local_x_mm: -2,
        local_y_mm: 0x0A0B,
        local_z_mm: i16::MIN,
        local_yaw: 9,
        _padding: 10,
    };
    let mut buf = [0xEEu8; 24];
    delta.write_to(&mut buf).unwrap();
    assert_eq!(
        &buf[..20],
        &[2, 1, 2, 3, 4, 0, 0, 0, 5, 6, 7, 8, 0xFF, 0xFE, 0x0A, 0x0B, 0x80, 0x00, 9, 10]
    );
    assert_eq!(buf[20], 0xEE);
    assert_eq!(StructureDeltaPacket::read_from(&buf).unwrap(), delta);
    let mut short = [0u8; 19];
    assert!(delta.write_to(&mut short).is_err());
    assert!(StructureDeltaPacket::read_from(&short).is_err());
    assert_eq!(StructureDeltaPacket::OP_MODIFIED, 1);
}

#[test]
fn chunk_hash_sorts_ids_and_covers_revision() {
    let mut chunk = StructureChunk::new(ChunkCoord { x: 0, z: 0 });
    chunk.recompute_hash();
    assert_eq!(chunk.manifest_hash, 0);
    chunk.structure_ids = vec![3, 1, 2];
    chunk.revision = 7;
    chunk.recompute_hash();
    assert_eq!(chunk.structure_ids, vec![1, 2, 3]);
    let payload = [0, 0, 0, 7, 0, 0, 0, 1, 0, 0, 0, 2, 0, 0, 0, 3];
    assert_eq!(chunk.manifest_hash, compute_adler32(&payload));
}

#[test]
fn test_client_cache_validation_zero_byte_streaming() {
    let mut mgr = ChunkManifestManager::new();
    let coord = ChunkCoord { x: 0, z: 0 };
    assert!(mgr.validate_client_cache(coord, 0));
    assert_eq!(mgr.register_structure(501, coord), coord);
    let server_hash = mgr.get_manifest_hash(coord);
    assert_ne!(server_hash, 0);
    assert!(mgr.validate_client_cache(coord, server_hash));
    assert!(!mgr.validate_client_cache(coord, 0xDEADBEEF));
    assert_eq!(mgr.get_structures_in_chunk(coord), vec![501]);
    assert!(mgr.get_structures_in_chunk(ChunkCoord { x: 1, z: 1 }).is_empty());
}

#[test]
fn chunk_registry_register_unregister_modify() {
    let mut mgr = ChunkManifestManager::new();
    let coord = ChunkCoord { x: -1, z: 2 };
    mgr.register_structure(9, coord);
    mgr.register_structure(4, coord);
    let h = mgr.get_manifest_hash(coord);
    mgr.register_structure(4, coord);
    assert_eq!(mgr.get_manifest_hash(coord), h);
    assert_eq!(mgr.get_structures_in_chunk(coord), vec![4, 9]);
    mgr.mark_chunk_modified(coord);
    assert_ne!(mgr.get_manifest_hash(coord), h);
    assert_eq!(mgr.unregister_structure(77, coord), Err(WorldError::StructureNotFound(77)));
    assert_eq!(
        mgr.unregister_structure(4, ChunkCoord { x: 5, z: 5 }),
        Err(WorldError::StructureNotFound(4))
    );
    assert_eq!(mgr.unregister_structure(4, coord), Ok(()));
    assert_eq!(mgr.get_structures_in_chunk(coord), vec![9]);
    assert_eq!(mgr.unregister_structure(9, coord), Ok(()));
    assert_eq!(mgr.get_manifest_hash(coord), 0);
}
