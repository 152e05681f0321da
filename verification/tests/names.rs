use chaff::{ghost_file_name, root_and_subkey, to_wide, Hive, HiveError};

#[test]
fn machine_and_user_hives_split_off() {
    assert_eq!(
        root_and_subkey("HKLM\\SOFTWARE\\Oracle\\VirtualBox"),
        Ok((Hive::LocalMachine, "SOFTWARE\\Oracle\\VirtualBox"))
    );
    assert_eq!(
        root_and_subkey("HKCU\\SOFTWARE\\Sysinternals\\Process Monitor"),
        Ok((Hive::CurrentUser, "SOFTWARE\\Sysinternals\\Process Monitor"))
    );
    assert_eq!(root_and_subkey("HKLM\\"), Ok((Hive::LocalMachine, "")));
    assert_eq!(root_and_subkey("HKCU\\ä\\ö"), Ok((Hive::CurrentUser, "ä\\ö")));
}

#[test]
fn unknown_hives_are_refused() {
    assert_eq!(root_and_subkey("HKU\\S-1-5"), Err(HiveError::UnknownHive));
    assert_eq!(root_and_subkey("hklm\\SOFTWARE"), Err(HiveError::UnknownHive));
    assert_eq!(root_and_subkey("HKLM"), Err(HiveError::UnknownHive));
    assert_eq!(root_and_subkey("HKLM/SOFTWARE"), Err(HiveError::UnknownHive));
    assert_eq!(root_and_subkey(""), Err(HiveError::UnknownHive));
}

#[test]
fn wide_names_are_nul_terminated_utf16() {
    assert_eq!(to_wide(""), vec![0]);
    assert_eq!(to_wide("ab"), vec![97, 98, 0]);
    assert_eq!(to_wide("\u{1F600}"), vec![0xD83D, 0xDE00, 0]);
    for s in ["PROCMON_PORT_MUTEX", "\\\\.\\pipe\\VBoxTrayIPC", "é€😀x"] {
        let expected: Vec<u16> = s.encode_utf16().chain(std::iter::once(0)).collect();
        assert_eq!(to_wide(s), expected);
    }
}

#[test]
fn ghost_names_end_in_one_exe() {
    assert_eq!(ghost_file_name("procmon"), "procmon.exe");
    assert_eq!(ghost_file_name("procmon.exe"), "procmon.exe");
    assert_eq!(ghost_file_name("a.exe.exe"), "a.exe");
    assert_eq!(ghost_file_name(".exe"), ".exe");
    assert_eq!(ghost_file_name(""), ".exe");
    assert_eq!(ghost_file_name("x.EXE"), "x.EXE.exe");
    assert_eq!(ghost_file_name("vmware-vmx.exe"), "vmware-vmx.exe");
}

#[test]
fn ghost_name_of_a_ghost_name_is_itself() {
    for n in ["ollydbg.exe", "ida64", "a.exe.exe", "exe", "..exe"] {
        let once = ghost_file_name(n);
        assert_eq!(ghost_file_name(&once), once);
    }
}

#[test]
fn wide_names_decode_back() {
    for s in ["", "HKLM", "\\\\.\\pipe\\vmware_vgauth", "ä€😀\u{10FFFF}\u{FFFF}"] {
        let w = to_wide(s);
        assert_eq!(w[w.len() - 1], 0);
        assert_eq!(w.len(), s.encode_utf16().count() + 1);
        assert_eq!(String::from_utf16(&w[..w.len() - 1]).unwrap(), s);
    }
}
