use bulk_rename::browse::Platform;
use bulk_rename::edit::{inverse_edit, Edit, EdittedItem};
use bulk_rename::folder::{build_folder, DirEntryInfo, Folder, FolderItem};
use bulk_rename::frame::{step_down, step_up};
use bulk_rename::gui::{BulkGui, Dialog};
use bulk_rename::rename::{CaseMode, NamingMode, NumberingMode};

fn gui_with_files(names: &[&str], selected: &[bool]) -> BulkGui {
    let mut g = BulkGui::default();
    g.browser.path_current = "/tmp/x/".to_string();
    g.table.files = names.iter().map(|s| s.to_string()).collect();
    g.table.renamed = g.table.files.clone();
    g.table.selected = selected.to_vec();
    g
}

#[test]
fn new_window_defaults() {
    let g = BulkGui::default();
    assert_eq!(g.version, "0.9.11.2");
    assert_eq!(g.program_name, "Bulk Rename");
    assert!(g.first_cycle && g.update_all && !g.show_all_items);
    assert_eq!(g.options.name.combobox_name, "Keep");
    assert_eq!(g.options.case.combobox_name, "Same");
    assert_eq!(g.options.numbering.combobox_name, "None");
    assert_eq!(g.options.numbering.start, 1);
    assert!(g.options.replace.match_first);
    assert_eq!(g.sections.browser_percentage_current, 15);
    assert_eq!(g.sections.files_percentage_current, 50);
    assert_eq!(g.sections.options_percentage_current, 35);
    assert!(g.controls.double_click_deselect_enabled);
    let item = FolderItem::default();
    assert_eq!(item.name, "Default");
    assert!(item.read_only && !item.read_into && !item.is_dir);
    let f = Folder::default();
    assert!(f.list_all_items.is_empty() && f.path_full.is_empty());
}

#[test]
fn dialogs_open_and_close() {
    let mut g = BulkGui::default();
    g.window_save_open();
    assert!(g.dialogs.open_save);
    assert!(!g.sections.browser_enabled && !g.sections.files_enabled && !g.sections.options_enabled);
    g.window_save_close();
    assert!(!g.dialogs.open_save);
    assert!(g.sections.browser_enabled && g.sections.files_enabled && g.sections.options_enabled);
    g.window_error_open();
    assert!(g.dialogs.open_error);
    g.window_error_close();
    assert!(!g.dialogs.open_error);
    g.set_dialog(Dialog::Redo, true);
    assert!(g.dialogs.open_redo && !g.sections.options_enabled);
    g.window_redo_close();
    g.window_undo_open();
    g.window_undo_close();
    g.window_preview_open();
    g.window_preview_close();
    g.window_saving_open();
    g.window_saving_close();
    assert!(!g.dialogs.open_redo && !g.dialogs.open_undo && !g.dialogs.open_preview && !g.dialogs.open_saving);
    assert!(g.sections.browser_enabled);
}

#[test]
fn numbering_counts_selected_files() {
    let mut g = gui_with_files(&["a.txt", "b.txt", "c.txt"], &[true, false, true]);
    g.options.numbering.enabled = true;
    g.choose_numbering_mode(NumberingMode::Prefix);
    g.options.numbering.pad = 2;
    assert!(g.refresh_renames());
    assert_eq!(g.table.renamed, vec!["01a.txt", "b.txt", "02c.txt"]);
    assert_eq!(g.table.selected_total, 2);
}

#[test]
fn all_steps_together() {
    let mut g = gui_with_files(&["Holiday Photo.JPG", "notes"], &[true, true]);
    g.options.name.enabled = true;
    g.choose_naming_mode(NamingMode::Keep);
    g.options.case.enabled = true;
    g.choose_case_mode(CaseMode::Lower);
    g.options.replace.enabled = true;
    g.options.replace.match_with = " ".to_string();
    g.options.replace.replace_with = "_".to_string();
    g.options.remove.enabled = true;
    g.options.remove.first = 1;
    g.options.add.enabled = true;
    g.options.add.suffix = "-x".to_string();
    g.options.numbering.enabled = true;
    g.choose_numbering_mode(NumberingMode::Suffix);
    g.options.numbering.start = 5;
    assert!(g.refresh_renames());
    assert_eq!(g.table.renamed, vec!["oliday_photo-x5.JPG", "otes-x6"]);
}

#[test]
fn unselected_names_stay() {
    let mut g = gui_with_files(&["one.md", "two.md"], &[false, false]);
    g.options.name.enabled = true;
    g.choose_naming_mode(NamingMode::Remove);
    g.options.name.value = "zzz".to_string();
    assert!(g.refresh_renames());
    assert_eq!(g.table.renamed, vec!["one.md", "two.md"]);
    assert_eq!(g.table.selected_total, 0);
    g.table.selected[1] = true;
    assert!(g.refresh_renames());
    assert_eq!(g.table.renamed, vec!["one.md", "zzz.md"]);
}

#[test]
fn refresh_renames_reports_a_cut_inside_a_character() {
    let mut g = gui_with_files(&["é.txt"], &[true]);
    g.options.add.enabled = true;
    g.options.add.insert = "-".to_string();
    g.options.add.at = 1;
    assert!(!g.refresh_renames());
    assert_eq!(g.table.renamed, vec!["é.txt"]);
}

#[test]
fn numbering_overflow_is_reported() {
    let mut g = gui_with_files(&["a"], &[true]);
    g.options.numbering.enabled = true;
    g.options.numbering.start = u32::MAX;
    assert!(!g.refresh_renames());
    g.options.numbering.start = u32::MAX - 1;
    g.choose_numbering_mode(NumberingMode::Prefix);
    assert!(g.refresh_renames());
    assert_eq!(g.table.renamed, vec!["4294967294a"]);
}

#[test]
fn totals_and_buttons() {
    let mut g = gui_with_files(&["a"], &[true]);
    g.refresh_selected_vec();
    g.refresh_totals();
    assert_eq!(g.modifications_total, 0);
    assert!(!g.dialogs.save_enabled && !g.dialogs.preview_enabled);
    assert!(!g.sections.options_save_enabled);
    assert!(!g.controls.undo_enabled && !g.controls.redo_enabled);
    g.options.case.enabled = true;
    g.options.add.enabled = true;
    g.refresh_totals();
    assert_eq!(g.modifications_total, 2);
    assert!(g.dialogs.save_enabled && g.dialogs.preview_enabled && g.sections.options_save_enabled);
    g.table.selected[0] = false;
    g.refresh_selected_vec();
    g.refresh_totals();
    assert!(!g.sections.options_save_enabled);
}

#[test]
fn option_flags_follow_modes() {
    let mut g = BulkGui::default();
    g.choose_naming_mode(NamingMode::Remove);
    g.choose_case_mode(CaseMode::Upper);
    g.choose_numbering_mode(NumberingMode::Insert);
    g.refresh_option_flags();
    assert_eq!(g.options.name.combobox_name, "Remove");
    assert_eq!(g.options.case.combobox_name, "Upper");
    assert_eq!(g.options.numbering.combobox_name, "Insert");
    assert!(g.options.name.textbox_enabled && g.options.case.widgets_enabled);
    assert!(g.options.numbering.widgets_enabled && g.options.numbering.insert_enabled);
    g.choose_numbering_mode(NumberingMode::PrefixAndSuffix);
    g.choose_case_mode(CaseMode::Same);
    g.choose_naming_mode(NamingMode::Reverse);
    g.refresh_option_flags();
    assert_eq!(g.options.numbering.combobox_name, "Pre+Suffix");
    assert!(!g.options.name.textbox_enabled && !g.options.case.widgets_enabled);
    assert!(g.options.numbering.widgets_enabled && !g.options.numbering.insert_enabled);
    g.choose_numbering_mode(NumberingMode::Off);
    g.refresh_option_flags();
    assert!(!g.options.numbering.widgets_enabled);
}

#[test]
fn save_undo_redo_round_trip() {
    let mut g = gui_with_files(&["a.txt", "b.txt"], &[false, true]);
    g.table.renamed[1] = "c.txt".to_string();
    let e = g.save_begin();
    assert!(g.dialogs.open_saving);
    assert_eq!(e.edits, 1);
    assert_eq!(e.items[0].name_original, "b.txt");
    assert_eq!(e.items[0].name_edited, "c.txt");
    assert_eq!(e.items[0].path_original, "/tmp/x/b.txt");
    assert_eq!(e.items[0].path_edited, "/tmp/x/c.txt");
    g.rename_failed("denied".to_string());
    assert_eq!(g.errors, vec!["denied"]);
    assert!(g.dialogs.open_error);
    g.update_all = false;
    g.save_finish(e);
    assert!(!g.dialogs.open_saving && g.update_all);
    assert_eq!(g.edits_undo.len(), 1);
    assert!(g.edits_redo.is_empty());

    let inv = g.undo_begin();
    assert!(g.edits_undo.is_empty());
    assert_eq!(inv.items[0].path_original, "/tmp/x/c.txt");
    assert_eq!(inv.items[0].path_edited, "/tmp/x/b.txt");
    g.undo_finish(inv);
    assert_eq!(g.edits_redo.len(), 1);

    let back = g.redo_begin();
    assert_eq!(back.items[0].path_original, "/tmp/x/b.txt");
    assert_eq!(back.items[0].path_edited, "/tmp/x/c.txt");
    assert!(g.edits_redo.is_empty());
    g.redo_finish(back);
    assert_eq!(g.edits_undo.len(), 1);
}

#[test]
fn inverse_swaps_each_rename() {
    let e = Edit {
        tag: "t".to_string(),
        items: vec![EdittedItem {
            name_original: "a".to_string(),
            name_edited: "b".to_string(),
            path_original: "/a".to_string(),
            path_edited: "/b".to_string(),
        }],
        edits: 1,
    };
    let inv = inverse_edit(&e);
    assert_eq!(inv.tag, "");
    assert_eq!(inv.edits, 1);
    assert_eq!(inv.items[0].name_original, "b");
    assert_eq!(inv.items[0].path_edited, "/a");
    let back = inverse_edit(&inv);
    assert_eq!(back.items[0].name_original, "a");
    assert_eq!(back.items[0].path_edited, "/b");
}

#[test]
fn selecting_files() {
    let mut g = gui_with_files(&["a", "b", "c", "d", "e"], &[false; 5]);
    g.table.click(1, true, false, false);
    assert_eq!(g.table.last_selected, 1);
    g.table.click(3, true, true, false);
    assert_eq!(g.table.selected, vec![false, true, true, true, false]);
    assert!(g.table.item_clicked);
    g.table.click(0, true, true, false);
    assert_eq!(g.table.selected, vec![true, true, true, true, false]);
    g.table.click(4, true, true, true);
    assert_eq!(g.table.selected, vec![true, true, true, true, false]);
    g.table.click(2, false, true, false);
    assert!(!g.table.item_clicked);
    assert_eq!(g.table.last_selected, 4);
    g.refresh_selected_vec();
    assert_eq!(g.table.selected_vec, vec![0, 1, 2, 3]);
    g.files_double_clicked(false, false);
    assert_eq!(g.table.selected, vec![false; 5]);
    g.select_all_files();
    assert_eq!(g.table.selected, vec![true; 5]);
    g.files_double_clicked(true, false);
    assert_eq!(g.table.selected, vec![true; 5]);
    g.deselect_all_files();
    g.refresh_selected_vec();
    assert!(g.table.selected_vec.is_empty());
}

#[test]
fn error_browsing() {
    let mut g = BulkGui::default();
    g.errors = vec!["a".to_string(), "b".to_string()];
    g.error_previous();
    assert_eq!(g.window_error_index, 0);
    g.error_next();
    assert_eq!(g.window_error_index, 1);
    g.error_next();
    assert_eq!(g.window_error_index, 1);
    g.error_previous();
    assert_eq!(g.window_error_index, 0);
}

#[test]
fn panel_widths_and_steps() {
    let mut g = BulkGui::default();
    g.sections.browser_percentage_current = 40;
    g.resize_files_section();
    assert_eq!(g.sections.files_percentage_current, 25);
    g.sections.browser_percentage_current = 70;
    g.resize_files_section();
    assert_eq!(g.sections.files_percentage_current, 0);
    assert_eq!(step_up(4), 5);
    assert_eq!(step_down(4), 3);
    assert_eq!(step_down(0), 0);
}

#[test]
fn first_frame_per_platform() {
    let mut g = BulkGui::default();
    g.init_platform(Platform::Unix);
    assert_eq!(g.os_string, "Unix");
    assert_eq!(g.default_path, "/");
    assert_eq!(g.browser.path_current, "/");
    assert!(!g.first_cycle);
    g.init_platform(Platform::Windows);
    assert_eq!(g.os_string, "Unix");
    let mut w = BulkGui::default();
    w.init_platform(Platform::Windows);
    assert_eq!(w.os_string, "Windows");
    assert_eq!(w.browser.path_line, "C:/");
    let mut o = BulkGui::default();
    o.init_platform(Platform::Other);
    assert_eq!(o.os_string, "");
    assert!(!o.first_cycle);
}

fn entry(name: &str, is_dir: bool, readable: bool) -> DirEntryInfo {
    DirEntryInfo { name: name.to_string(), is_dir, readable, read_only: false }
}

#[test]
fn folder_listing_sorted_by_lowercase_name() {
    let entries = vec![
        entry("beta.txt", false, true),
        entry("Alpha", true, true),
        entry(".hidden", false, true),
        entry("alpha.TXT", false, false),
        entry("Gamma", true, false),
        entry("ALPHA.txt", false, true),
    ];
    let f = build_folder("/d/".to_string(), &entries, true);
    let names = |v: &Vec<FolderItem>| v.iter().map(|i| i.name.clone()).collect::<Vec<_>>();
    assert_eq!(names(&f.list_all_items), vec!["Alpha", "alpha.TXT", "ALPHA.txt", "beta.txt", "Gamma"]);
    assert_eq!(names(&f.list_folders), vec!["Alpha", "Gamma"]);
    assert_eq!(names(&f.list_files), vec!["alpha.TXT", "ALPHA.txt", "beta.txt"]);
    assert_eq!(f.list_files[0].full_path, "/d/alpha.TXT");
    assert!(!f.list_files[0].read_into);
    assert_eq!(f.path_full, "/d/");
    let all = build_folder("/d/".to_string(), &entries, false);
    assert_eq!(names(&all.list_all_items)[0], ".hidden");
    assert_eq!(all.list_all_items.len(), 6);
}

#[test]
fn reading_a_folder_into_the_table() {
    let entries = vec![
        entry("b.txt", false, true),
        entry("a.txt", false, false),
        entry("sub", true, true),
        entry("locked", true, false),
    ];
    let f = build_folder("/d/".to_string(), &entries, true);
    let mut g = BulkGui::default();
    g.browser.path_current = "/d/".to_string();
    g.apply_listing(Ok(f));
    assert_eq!(g.table.files, vec!["b.txt"]);
    assert_eq!(g.table.selected, vec![false]);
    assert_eq!(g.table.renamed, vec!["b.txt"]);
    assert_eq!(g.browser.list_folders, vec!["sub"]);
    assert!(!g.update_all);
    assert_eq!(g.browser.path_line, "/d/");
    let mut h = BulkGui::default();
    h.show_all_items = true;
    h.apply_listing(Ok(build_folder("/d/".to_string(), &entries, true)));
    assert_eq!(h.browser.list_folders, vec!["locked", "sub"]);
    h.apply_listing(Err("no such folder".to_string()));
    assert!(h.table.files.is_empty() && h.browser.list_folders.is_empty());
    assert_eq!(h.errors, vec!["no such folder"]);
    assert!(h.dialogs.open_error && !h.sections.files_enabled);
}

#[test]
fn moving_between_folders() {
    let mut g = BulkGui::default();
    g.init_platform(Platform::Unix);
    g.refresh_up_button();
    assert!(!g.controls.browser_up_enabled);
    g.enter_folder(&"home".to_string());
    assert_eq!(g.browser.path_current, "/home/");
    assert_eq!(g.browser.path_last, "/");
    g.enter_folder(&"user".to_string());
    g.refresh_up_button();
    assert!(g.controls.browser_up_enabled);
    g.update_all = false;
    g.browse_up(Platform::Unix);
    assert_eq!(g.browser.path_current, "/home/");
    assert_eq!(g.browser.path_last, "/home/user/");
    assert!(g.update_all);
    g.browse_up(Platform::Unix);
    assert_eq!(g.browser.path_current, "/");
    g.browse_up(Platform::Unix);
    assert_eq!(g.browser.path_current, "/");
    g.browser.path_current = "//a//b".to_string();
    g.browse_up(Platform::Unix);
    assert_eq!(g.browser.path_current, "/a/");
    g.browse_up(Platform::Other);
    assert_eq!(g.browser.path_current, "/a/");
    g.reset_browser_path();
    assert_eq!(g.browser.path_current, "/");
}

#[test]
fn moving_up_on_windows() {
    let mut g = BulkGui::default();
    g.init_platform(Platform::Windows);
    g.browser.path_current = "C:/Users/x/".to_string();
    g.browse_up(Platform::Windows);
    assert_eq!(g.browser.path_current, "C:/Users/");
    g.browse_up(Platform::Windows);
    assert_eq!(g.browser.path_current, "C:/");
    g.browse_up(Platform::Windows);
    assert_eq!(g.browser.path_current, "C:/");
    g.browser.path_current = "D:/a/".to_string();
    g.browse_up(Platform::Windows);
    assert_eq!(g.browser.path_current, "D:/");
}

#[test]
fn typed_path_gets_a_final_slash() {
    let mut g = BulkGui::default();
    g.init_platform(Platform::Unix);
    g.browser.path_line = "/tmp".to_string();
    g.update_all = false;
    g.commit_path_line();
    assert_eq!(g.browser.path_line, "/tmp/");
    assert_eq!(g.browser.path_current, "/tmp/");
    assert_eq!(g.browser.path_last, "/");
    assert!(g.update_all);
    g.update_all = false;
    g.commit_path_line();
    assert!(!g.update_all);
    g.browser.path_line = "/var/".to_string();
    g.commit_path_line();
    assert_eq!(g.browser.path_current, "/var/");
}

#[test]
fn new_names_end_with_dot_and_extension() {
    let files = ["a.txt", "b.tar.gz", ".bashrc", "noext", "x."];
    let mut g = gui_with_files(&files, &[true, true, true, true, true]);
    g.options.name.enabled = true;
    g.choose_naming_mode(NamingMode::Remove);
    g.options.name.value = "n".to_string();
    assert!(g.refresh_renames());
    assert_eq!(g.table.renamed, vec!["n.txt", "n.gz", "n", "n", "n"]);
    assert_eq!(g.table.renamed.len(), g.table.files.len());
    assert_eq!(g.table.selected.len(), g.table.files.len());
}

#[test]
fn two_reads_of_a_folder_agree() {
    let entries = vec![
        entry("b.txt", false, true),
        entry("B.txt", false, false),
        entry("a", true, true),
        entry(".h", false, true),
    ];
    let f = build_folder("/d/".to_string(), &entries, true);
    let g = build_folder("/d/".to_string(), &entries, true);
    let fields = |v: &Vec<FolderItem>| {
        v.iter()
            .map(|i| (i.is_dir, i.name.clone(), i.read_into, i.read_only, i.full_path.clone()))
            .collect::<Vec<_>>()
    };
    assert_eq!(f.path_full, g.path_full);
    assert_eq!(fields(&f.list_all_items), fields(&g.list_all_items));
    assert_eq!(fields(&f.list_folders), fields(&g.list_folders));
    assert_eq!(fields(&f.list_files), fields(&g.list_files));
    assert_eq!(fields(&f.list_files)[0].1, "b.txt");
    assert_eq!(fields(&f.list_files)[1].1, "B.txt");
}

#[test]
fn saving_walks_the_new_names() {
    let mut g = gui_with_files(&["a.txt", "b.txt", "c.txt"], &[true, false, true]);
    g.table.renamed = vec!["x.txt".to_string(), "y.txt".to_string()];
    assert!(g.table.can_save());
    let e = g.save_begin();
    assert_eq!(e.edits, 1);
    assert_eq!(e.items.len(), 1);
    assert_eq!(e.items[0].name_original, "a.txt");
    assert_eq!(e.items[0].name_edited, "x.txt");
    assert_eq!(e.items[0].path_edited, "/tmp/x/x.txt");
    let mut h = gui_with_files(&["a.txt"], &[true]);
    h.table.renamed = vec!["x".to_string(), "y".to_string()];
    assert!(!h.table.can_save());
}

#[test]
fn names_with_colons_keep_their_extension() {
    let mut g = gui_with_files(&["a:b.txt", "C:x.tar", "ab:c", "d.e:f"], &[true, true, true, true]);
    g.table.selected.push(false);
    assert!(g.table.can_rename());
    g.options.name.enabled = true;
    g.choose_naming_mode(NamingMode::Remove);
    g.options.name.value = "n".to_string();
    assert!(g.refresh_renames());
    assert_eq!(g.table.renamed, vec!["n.txt", "n.tar", "n", "n.e:f"]);
    assert_eq!(g.table.selected_total, 4);
}
