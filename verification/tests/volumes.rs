use mediaexplorer_gui::entry::{Attributes, DirEntry};
use mediaexplorer_gui::state::{new_disk_volume_serial, VolumeKind};
use mediaexplorer_gui::volumes::{
    archive_node_name, disk_node_name, mount_volumes, partition_node_name, reprefix_tree, volume_label, volume_prefix, VolumeSource, VolumeTable,
};

fn three_disks() -> VolumeTable {
    VolumeTable {
        kind: VolumeKind::Disk,
        starts: vec![0, 1440, 2880],
        sizes: vec![737_280; 3],
        labels: vec!["Disk 1".to_string(), "Disk 2".to_string(), "Disk 3".to_string()],
    }
}

fn single_floppy() -> VolumeTable {
    VolumeTable { kind: VolumeKind::Partition, starts: Vec::new(), sizes: Vec::new(), labels: Vec::new() }
}

#[test]
fn volume_jumps_point_at_each_disk_start() {
    assert_eq!(
        three_disks().volume_jumps(),
        vec![("Disk 1".to_string(), 0), ("Disk 2".to_string(), 1440), ("Disk 3".to_string(), 2880)]
    );
}

#[test]
fn locate_sector_names_the_disk_and_its_own_offset() {
    let disk = three_disks();
    assert_eq!(disk.locate_sector(0), Some((0, 0)));
    assert_eq!(disk.locate_sector(1439), Some((0, 1439)));
    assert_eq!(disk.locate_sector(1440), Some((1, 0)));
    assert_eq!(disk.locate_sector(2881), Some((2, 1)));
    assert_eq!(disk.locate_sector(4319), Some((2, 1439)));
}

#[test]
fn a_single_floppy_has_no_volumes_to_jump_between() {
    let disk = single_floppy();
    assert!(disk.volume_jumps().is_empty());
    assert_eq!(disk.locate_sector(0), None);
    assert_eq!(disk.volume_range(0, 737_280), None);
}

#[test]
fn volume_range_yields_one_whole_disk_each() {
    let disk = three_disks();
    let image_len = 3 * 737_280;
    for n in 0..3 {
        let (start, end) = disk.volume_range(n, image_len).expect("disk bytes");
        assert_eq!(end - start, 737_280);
        assert_eq!(start, n * 737_280);
    }
    assert_eq!(disk.volume_range(3, image_len), None);
    assert_eq!(disk.volume_range(2, image_len - 1), None);
}

#[test]
fn a_sector_before_the_first_volume_is_in_none() {
    let t = VolumeTable { kind: VolumeKind::Partition, starts: vec![1, 100], sizes: vec![512, 512], labels: Vec::new() };
    assert_eq!(t.locate_sector(0), None);
    assert_eq!(t.locate_sector(99), Some((0, 98)));
    assert!(t.volume_jumps().is_empty());
}

#[test]
fn resolve_leads_a_tree_path_back_to_its_volume() {
    let disk = three_disks();
    assert_eq!(disk.resolve("D2/UTILS/X.COM"), Some((1, "UTILS/X.COM".to_string())));
    assert_eq!(disk.resolve("D3"), Some((2, String::new())));
    assert_eq!(disk.resolve("D4/A"), None);
    assert_eq!(disk.resolve("D0/A"), None);
    assert_eq!(disk.resolve("P1/A"), None);
    assert_eq!(disk.resolve("D/A"), None);
    assert_eq!(disk.resolve(""), None);
    assert_eq!(disk.resolve("D+1/A"), Some((0, "A".to_string())));
    let hd = VolumeTable { kind: VolumeKind::Partition, ..three_disks() };
    assert_eq!(hd.resolve("P1/A/B.TXT"), Some((0, "A/B.TXT".to_string())));
}

#[test]
fn mounted_node_paths_resolve_to_their_volume() {
    let disk = three_disks();
    for n in 1..=3usize {
        let p = volume_prefix(VolumeKind::Disk, n);
        assert_eq!(disk.resolve(&format!("{p}/GAMES/A.BAS")), Some((n - 1, "GAMES/A.BAS".to_string())));
        assert_eq!(disk.resolve(&p), Some((n - 1, String::new())));
    }
}

#[test]
fn node_names_and_prefixes() {
    assert_eq!(volume_prefix(VolumeKind::Partition, 1), "P1");
    assert_eq!(volume_prefix(VolumeKind::Zip, 12), "D12");
    assert_eq!(disk_node_name(1, None), "Disk 1");
    assert_eq!(disk_node_name(2, Some("GAMEDISK")), "Disk 2 \u{2014} GAMEDISK");
    assert_eq!(VolumeKind::Partition.prefix(), 'P');
    assert_eq!(VolumeKind::Disk.prefix(), 'D');
}

#[test]
fn reprefix_tree_rewrites_nested_paths() {
    let tree = vec![DirEntry {
        name: "SUB".into(),
        path: "SUB".into(),
        is_dir: true,
        size: 0,
        attributes: Default::default(),
        modified: None,
        children: vec![DirEntry {
            name: "A.TXT".into(),
            path: "SUB/A.TXT".into(),
            is_dir: false,
            size: 3,
            attributes: Default::default(),
            modified: None,
            children: Vec::new(),
        }],
    }];
    let prefixed = reprefix_tree(tree, "P1");
    assert_eq!(prefixed[0].path, "P1/SUB");
    assert_eq!(prefixed[0].children[0].path, "P1/SUB/A.TXT");
}

#[test]
fn reprefix_keeps_everything_but_the_paths() {
    let tree = vec![DirEntry {
        name: "X".into(),
        path: "X".into(),
        is_dir: false,
        size: 9,
        attributes: Attributes { archive: true, ..Attributes::default() },
        modified: None,
        children: Vec::new(),
    }];
    let out = reprefix_tree(tree, "D2");
    assert_eq!(out.len(), 1);
    assert_eq!(out[0].name, "X");
    assert_eq!(out[0].path, "D2/X");
    assert_eq!(out[0].size, 9);
    assert!(out[0].attributes.archive);
    assert!(reprefix_tree(Vec::new(), "P1").is_empty());
}

#[test]
fn volume_serial_mixes_seconds_and_nanoseconds() {
    assert_eq!(new_disk_volume_serial(0x1_0000_0005, 3), 6);
    assert_eq!(new_disk_volume_serial(0, 0), 0);
    assert_eq!(new_disk_volume_serial(0xFFFF_FFFF, 0xFFFF_FFFF), 0);
}

fn plain_file(path: &str) -> DirEntry {
    DirEntry {
        name: path.rsplit('/').next().unwrap().to_string(),
        path: path.to_string(),
        is_dir: false,
        size: 10,
        attributes: Attributes::default(),
        modified: None,
        children: Vec::new(),
    }
}

#[test]
fn volume_labels_by_kind() {
    assert_eq!(volume_label(VolumeKind::Partition, 2, ""), "Partition 2");
    assert_eq!(volume_label(VolumeKind::Disk, 3, "ignored"), "Disk 3");
    assert_eq!(volume_label(VolumeKind::Zip, 1, "GAME.DSK"), "GAME.DSK");
}

#[test]
fn mounting_volumes_builds_nodes_and_table() {
    let sources = vec![
        VolumeSource {
            tree: vec![plain_file("AUTOEXEC.BAS")],
            node_name: disk_node_name(1, Some("BOOT")),
            lba_start: 0,
            byte_len: 737_280,
            label: volume_label(VolumeKind::Disk, 1, ""),
        },
        VolumeSource {
            tree: vec![plain_file("GAME.BAS")],
            node_name: disk_node_name(2, None),
            lba_start: 1440,
            byte_len: 737_280,
            label: volume_label(VolumeKind::Disk, 2, ""),
        },
    ];
    let m = mount_volumes(VolumeKind::Disk, sources).unwrap();
    assert_eq!(m.tree.len(), 2);
    assert_eq!(m.tree[0].path, "D1");
    assert_eq!(m.tree[0].name, "Disk 1 \u{2014} BOOT");
    assert!(m.tree[0].is_dir);
    assert_eq!(m.tree[1].path, "D2");
    assert_eq!(m.tree[1].children[0].path, "D2/GAME.BAS");
    assert_eq!(m.table.starts, vec![0, 1440]);
    assert_eq!(m.table.labels, vec!["Disk 1", "Disk 2"]);
    assert_eq!(m.table.resolve("D2/GAME.BAS"), Some((1, "GAME.BAS".to_string())));
    assert_eq!(m.table.resolve("D1"), Some((0, String::new())));
    assert_eq!(m.table.resolve("D3/X"), None);
}

#[test]
fn mounting_nothing_readable_gives_none() {
    assert!(mount_volumes(VolumeKind::Partition, Vec::new()).is_none());
}

#[test]
fn partition_nodes_show_fat_size_and_label() {
    assert_eq!(partition_node_name(1, false, "32.00 MB", Some("VOL_ID")), "Partition 1 \u{2014} FAT12, 32.00 MB, VOL_ID");
    assert_eq!(partition_node_name(12, true, "134.22 MB", None), "Partition 12 \u{2014} FAT16, 134.22 MB");
}

#[test]
fn archive_nodes_are_named_after_the_member() {
    assert_eq!(
        archive_node_name("Disc Station Disk_08b.dsk", "737.28 kB", Some("GAMEDISK")),
        "Disc Station Disk_08b.dsk \u{2014} 737.28 kB, GAMEDISK"
    );
    assert_eq!(archive_node_name("A.DSK", "368.64 kB", None), "A.DSK \u{2014} 368.64 kB");
}
