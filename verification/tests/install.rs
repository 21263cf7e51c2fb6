//! Tests for the virtual install resource over an in-memory filesystem.

use ironworks::{
    Error, ErrorValue, FileStream, Location, MemoryVfs, Resource, VirtualInstall, read_exact,
};

#[test]
fn version_of_base_game() {
    let mut vfs = MemoryVfs::new();
    vfs.insert("ffxiv", Vec::new());
    vfs.insert("../ffxivgame.ver", b"2024.01.01.0000.0000".to_vec());
    let install = VirtualInstall::at_sqpack(vfs);
    assert_eq!(install.version(0).unwrap(), "2024.01.01.0000.0000");
}

#[test]
fn repositories_are_classified_by_name() {
    let mut vfs = MemoryVfs::new();
    vfs.insert("ffxiv", Vec::new());
    vfs.insert("ex1", Vec::new());
    vfs.insert("ex3", Vec::new());
    vfs.insert("ex1/ex1.ver", b"1.0".to_vec());
    vfs.insert("ex3/ex3.ver", b"3.0".to_vec());
    let install = VirtualInstall::at_sqpack(vfs);

    // Repository 1 resolves to "ex1", repository 3 to "ex3".
    assert_eq!(install.version(1).unwrap(), "1.0");
    assert_eq!(install.version(3).unwrap(), "3.0");
    // "ex2" does not exist in the backing filesystem: not found.
    assert!(matches!(
        install.version(2),
        Err(Error::NotFound(ErrorValue::Repository(2)))
    ));
    // Indices beyond 9 always fail not-found.
    assert!(matches!(
        install.version(10),
        Err(Error::NotFound(ErrorValue::Repository(10)))
    ));
    assert!(matches!(
        install.version(200),
        Err(Error::NotFound(ErrorValue::Repository(200)))
    ));
}

#[test]
fn index_paths_follow_the_naming_scheme() {
    let mut vfs = MemoryVfs::new();
    vfs.insert("ffxiv", Vec::new());
    vfs.insert("ffxiv/0a0000.win32.index", vec![1, 2, 3]);
    vfs.insert("ffxiv/0a0000.win32.index2", vec![4, 5]);
    let install = VirtualInstall::at_sqpack(vfs);

    let mut index = install.index(0, 0x0a, 0).unwrap();
    assert_eq!(read_exact(&mut index, 3).unwrap(), vec![1, 2, 3]);
    let mut index2 = install.index2(0, 0x0a, 0).unwrap();
    assert_eq!(read_exact(&mut index2, 2).unwrap(), vec![4, 5]);

    // A missing table is reported as not-found with the path.
    match install.index(0, 0x0b, 0) {
        Err(Error::NotFound(ErrorValue::Path(p))) => {
            assert_eq!(p, b"ffxiv/0b0000.win32.index".to_vec());
        },
        other => panic!("expected a not-found path, got {:?}", other.is_ok()),
    }
}

#[test]
fn file_resolves_known_size() {
    let mut vfs = MemoryVfs::new();
    vfs.insert("ffxiv", Vec::new());
    vfs.insert("ffxiv/040002.win32.dat1", (0..100u8).collect());
    let install = VirtualInstall::at_sqpack(vfs);

    let location = Location::new(2, 1, 20, Some(8));
    let mut file = install.file(0, 4, location).unwrap();
    assert_eq!(file.limit(), 8);
    assert_eq!(read_exact(&mut file, 8).unwrap(), (20..28u8).collect::<Vec<u8>>());
    assert_eq!(file.read(1).unwrap(), Vec::<u8>::new());
}

#[test]
fn file_discovers_size_from_container_end() {
    let mut vfs = MemoryVfs::new();
    vfs.insert("ffxiv", Vec::new());
    vfs.insert("ffxiv/040002.win32.dat0", (0..100u8).collect());
    let install = VirtualInstall::at_sqpack(vfs);

    // No explicit size, container 100 bytes long, offset 20: the window
    // limit must resolve to exactly 80.
    let location = Location::new(2, 0, 20, None);
    let file = install.file(0, 4, location).unwrap();
    assert_eq!(file.limit(), 80);
}

#[test]
fn version_needs_valid_text() {
    let mut vfs = MemoryVfs::new();
    vfs.insert("../ffxivgame.ver", vec![0xFF, 0xFE, 0x80]);
    let install = VirtualInstall::at_sqpack(vfs);
    assert!(matches!(install.version(0), Err(Error::Resource(_))));
}

#[test]
fn unknown_repository_file_is_not_found() {
    let vfs = MemoryVfs::new();
    let install = VirtualInstall::at_sqpack(vfs);
    let location = Location::new(0, 0, 0, Some(4));
    assert!(matches!(
        install.file(1, 4, location),
        Err(Error::NotFound(ErrorValue::Repository(1)))
    ));
}
