//! The state of the renamer window: the folder being browsed, the file
//! table, the rename options, the dialogs and the undo / redo history,
//! and the rules by which it changes.  Pixel sizes and the save progress
//! bar (floating point) stay with the window toolkit.

use vstd::prelude::*;
use crate::edit::{inverse_edit, is_inverse_of, Edit, EdittedItem};
use crate::folder::Folder;
use crate::rename::{CaseMode, NamingMode, NumberingMode};

verus! {

/// Which dialogs are shown, and which may be shown.
#[derive(Debug)]
pub struct Dialogs {
    pub open_save: bool,
    pub save_enabled: bool,
    pub open_saving: bool,
    pub saving_enabled: bool,
    pub open_preview: bool,
    pub preview_enabled: bool,
    pub open_error: bool,
    pub error_enabled: bool,
    pub open_redo: bool,
    pub redo_enabled: bool,
    pub open_undo: bool,
    pub undo_enabled: bool,
}

impl Dialogs {
    /// The values a new window starts with.
    pub open spec fn is_initial(self) -> bool {
        let r = self;
        &&& !r.open_save
        &&& r.save_enabled
        &&& !r.open_saving
        &&& r.saving_enabled
        &&& !r.open_preview
        &&& r.preview_enabled
        &&& !r.open_error
        &&& r.error_enabled
        &&& !r.open_redo
        &&& r.redo_enabled
        &&& !r.open_undo
        &&& r.undo_enabled
    }
}

impl Default for Dialogs {
    fn default() -> (r: Self)
        ensures
            r.is_initial(),
    {
        Dialogs {
            open_save: false,
            save_enabled: true,
            open_saving: false,
            saving_enabled: true,
            open_preview: false,
            preview_enabled: true,
            open_error: false,
            error_enabled: true,
            open_redo: false,
            redo_enabled: true,
            open_undo: false,
            undo_enabled: true,
        }
    }
}

/// The three sections of the window (browser, files, options): whether each takes input, and their widths in percent.
#[derive(Debug)]
pub struct Sections {
    pub browser_enabled: bool,
    pub files_enabled: bool,
    pub options_enabled: bool,
    pub options_save_enabled: bool,
    pub files_hovered: bool,
    pub browser_percentage_min: u8,
    pub browser_percentage_max: u8,
    pub browser_percentage_current: u8,
    pub files_percentage_min: u8,
    pub files_percentage_max: u8,
    pub files_percentage_current: u8,
    pub options_percentage_min: u8,
    pub options_percentage_current: u8,
}

impl Sections {
    /// The values a new window starts with.
    pub open spec fn is_initial(self) -> bool {
        let r = self;
        &&& r.browser_enabled
        &&& r.files_enabled
        &&& r.options_enabled
        &&& r.options_save_enabled
        &&& !r.files_hovered
        &&& r.browser_percentage_min == 15
        &&& r.browser_percentage_max == 50
        &&& r.browser_percentage_current == 15
        &&& r.files_percentage_min == 15
        &&& r.files_percentage_max == 50
        &&& r.files_percentage_current == 50
        &&& r.options_percentage_min == 35
        &&& r.options_percentage_current == 35
    }
}

impl Default for Sections {
    fn default() -> (r: Self)
        ensures
            r.is_initial(),
    {
        Sections {
            browser_enabled: true,
            files_enabled: true,
            options_enabled: true,
            options_save_enabled: true,
            files_hovered: false,
            browser_percentage_min: 15,
            browser_percentage_max: 50,
            browser_percentage_current: 15,
            files_percentage_min: 15,
            files_percentage_max: 50,
            files_percentage_current: 50,
            options_percentage_min: 35,
            options_percentage_current: 35,
        }
    }
}

/// The folder browser: the folder shown and the paths typed and visited.
#[derive(Debug)]
pub struct Browser {
    pub folder: Folder,
    pub list_folders: Vec<String>,
    pub path_current: String,
    pub path_last: String,
    pub path_line: String,
}

impl Browser {
    /// The values a new window starts with.
    pub open spec fn is_initial(self) -> bool {
        let r = self;
        &&& r.folder.path_full@ == Seq::<char>::empty() && r.folder.list_files@.len() == 0 && r.folder.list_folders@.len() == 0 && r.folder.list_all_items@.len() == 0
        &&& r.list_folders@.len() == 0
        &&& r.path_current@ == Seq::<char>::empty()
        &&& r.path_last@ == Seq::<char>::empty()
        &&& r.path_line@ == Seq::<char>::empty()
    }
}

impl Default for Browser {
    fn default() -> (r: Self)
        ensures
            r.is_initial(),
    {
        Browser {
            folder: Folder::default(),
            list_folders: Vec::new(),
            path_current: String::new(),
            path_last: String::new(),
            path_line: String::new(),
        }
    }
}

/// The file table: the files of the folder, which are selected, and their new names.
#[derive(Debug)]
pub struct FileTable {
    pub files: Vec<String>,
    pub selected: Vec<bool>,
    pub selected_vec: Vec<usize>,
    pub renamed: Vec<String>,
    pub item_clicked: bool,
    pub last_selected: u32,
    pub selected_total: u32,
}

impl FileTable {
    /// The values a new window starts with.
    pub open spec fn is_initial(self) -> bool {
        let r = self;
        &&& r.files@.len() == 0
        &&& r.selected@.len() == 0
        &&& r.selected_vec@.len() == 0
        &&& r.renamed@.len() == 0
        &&& !r.item_clicked
        &&& r.last_selected == 0
        &&& r.selected_total == 0
    }
}

impl Default for FileTable {
    fn default() -> (r: Self)
        ensures
            r.is_initial(),
    {
        FileTable {
            files: Vec::new(),
            selected: Vec::new(),
            selected_vec: Vec::new(),
            renamed: Vec::new(),
            item_clicked: false,
            last_selected: 0,
            selected_total: 0,
        }
    }
}

/// Options of the name step.
#[derive(Debug)]
pub struct NameOptions {
    pub enabled: bool,
    pub textbox_enabled: bool,
    pub combobox_name: String,
    pub combobox_value: NamingMode,
    pub combobox_default_value: NamingMode,
    pub value: String,
}

impl NameOptions {
    /// The values a new window starts with.
    pub open spec fn is_initial(self) -> bool {
        let r = self;
        &&& !r.enabled
        &&& !r.textbox_enabled
        &&& r.combobox_name@ == "Keep"@
        &&& r.combobox_value == NamingMode::Keep
        &&& r.combobox_default_value == NamingMode::Keep
        &&& r.value@ == Seq::<char>::empty()
    }
}

impl Default for NameOptions {
    fn default() -> (r: Self)
        ensures
            r.is_initial(),
    {
        NameOptions {
            enabled: false,
            textbox_enabled: false,
            combobox_name: String::from_str("Keep"),
            combobox_value: NamingMode::Keep,
            combobox_default_value: NamingMode::Keep,
            value: String::new(),
        }
    }
}

/// Options of the case step.
#[derive(Debug)]
pub struct CaseOptions {
    pub enabled: bool,
    pub widgets_enabled: bool,
    pub combobox_name: String,
    pub combobox_value: CaseMode,
    pub combobox_default_value: CaseMode,
    pub combobox_label: String,
    pub from: u32,
    pub to: u32,
}

impl CaseOptions {
    /// The values a new window starts with.
    pub open spec fn is_initial(self) -> bool {
        let r = self;
        &&& !r.enabled
        &&& !r.widgets_enabled
        &&& r.combobox_name@ == "Same"@
        &&& r.combobox_value == CaseMode::Same
        &&& r.combobox_default_value == CaseMode::Same
        &&& r.combobox_label@ == Seq::<char>::empty()
        &&& r.from == 0
        &&& r.to == 0
    }
}

impl Default for CaseOptions {
    fn default() -> (r: Self)
        ensures
            r.is_initial(),
    {
        CaseOptions {
            enabled: false,
            widgets_enabled: false,
            combobox_name: String::from_str("Same"),
            combobox_value: CaseMode::Same,
            combobox_default_value: CaseMode::Same,
            combobox_label: String::new(),
            from: 0,
            to: 0,
        }
    }
}

/// Options of the replace step.
#[derive(Debug)]
pub struct ReplaceOptions {
    pub enabled: bool,
    pub match_with: String,
    pub replace_with: String,
    pub match_first: bool,
}

impl ReplaceOptions {
    /// The values a new window starts with.
    pub open spec fn is_initial(self) -> bool {
        let r = self;
        &&& !r.enabled
        &&& r.match_with@ == Seq::<char>::empty()
        &&& r.replace_with@ == Seq::<char>::empty()
        &&& r.match_first
    }
}

impl Default for ReplaceOptions {
    fn default() -> (r: Self)
        ensures
            r.is_initial(),
    {
        ReplaceOptions {
            enabled: false,
            match_with: String::new(),
            replace_with: String::new(),
            match_first: true,
        }
    }
}

/// Options of the remove step.
#[derive(Debug)]
pub struct RemoveOptions {
    pub enabled: bool,
    pub first: u32,
    pub last: u32,
    pub to: u32,
    pub from: u32,
}

impl RemoveOptions {
    /// The values a new window starts with.
    pub open spec fn is_initial(self) -> bool {
        let r = self;
        &&& !r.enabled
        &&& r.first == 0
        &&& r.last == 0
        &&& r.to == 0
        &&& r.from == 0
    }
}

impl Default for RemoveOptions {
    fn default() -> (r: Self)
        ensures
            r.is_initial(),
    {
        RemoveOptions {
            enabled: false,
            first: 0,
            last: 0,
            to: 0,
            from: 0,
        }
    }
}

/// Options of the add step.
#[derive(Debug)]
pub struct AddOptions {
    pub enabled: bool,
    pub prefix: String,
    pub insert: String,
    pub suffix: String,
    pub at: u32,
}

impl AddOptions {
    /// The values a new window starts with.
    pub open spec fn is_initial(self) -> bool {
        let r = self;
        &&& !r.enabled
        &&& r.prefix@ == Seq::<char>::empty()
        &&& r.insert@ == Seq::<char>::empty()
        &&& r.suffix@ == Seq::<char>::empty()
        &&& r.at == 0
    }
}

impl Default for AddOptions {
    fn default() -> (r: Self)
        ensures
            r.is_initial(),
    {
        AddOptions {
            enabled: false,
            prefix: String::new(),
            insert: String::new(),
            suffix: String::new(),
            at: 0,
        }
    }
}

/// Options of the numbering step.
#[derive(Debug)]
pub struct NumberingOptions {
    pub enabled: bool,
    pub widgets_enabled: bool,
    pub insert_enabled: bool,
    pub combobox_name: String,
    pub combobox_value: NumberingMode,
    pub combobox_default_value: NumberingMode,
    pub combobox_label: String,
    pub at: u32,
    pub start: u32,
    pub pad: u32,
}

impl NumberingOptions {
    /// The values a new window starts with.
    pub open spec fn is_initial(self) -> bool {
        let r = self;
        &&& !r.enabled
        &&& !r.widgets_enabled
        &&& !r.insert_enabled
        &&& r.combobox_name@ == "None"@
        &&& r.combobox_value == NumberingMode::Off
        &&& r.combobox_default_value == NumberingMode::Off
        &&& r.combobox_label@ == Seq::<char>::empty()
        &&& r.at == 0
        &&& r.start == 1
        &&& r.pad == 0
    }
}

impl Default for NumberingOptions {
    fn default() -> (r: Self)
        ensures
            r.is_initial(),
    {
        NumberingOptions {
            enabled: false,
            widgets_enabled: false,
            insert_enabled: false,
            combobox_name: String::from_str("None"),
            combobox_value: NumberingMode::Off,
            combobox_default_value: NumberingMode::Off,
            combobox_label: String::new(),
            at: 0,
            start: 1,
            pad: 0,
        }
    }
}

/// Buttons and check boxes outside the sections.
#[derive(Debug)]
pub struct Controls {
    pub defaults_enabled: bool,
    pub undo_enabled: bool,
    pub redo_enabled: bool,
    pub browser_up_enabled: bool,
    pub browser_directory_enabled: bool,
    pub lock_section_resizing: bool,
    pub double_click_deselect_enabled: bool,
}

impl Controls {
    /// The values a new window starts with.
    pub open spec fn is_initial(self) -> bool {
        let r = self;
        &&& !r.defaults_enabled
        &&& r.undo_enabled
        &&& r.redo_enabled
        &&& !r.browser_up_enabled
        &&& r.browser_directory_enabled
        &&& !r.lock_section_resizing
        &&& r.double_click_deselect_enabled
    }
}

impl Default for Controls {
    fn default() -> (r: Self)
        ensures
            r.is_initial(),
    {
        Controls {
            defaults_enabled: false,
            undo_enabled: true,
            redo_enabled: true,
            browser_up_enabled: false,
            browser_directory_enabled: true,
            lock_section_resizing: false,
            double_click_deselect_enabled: true,
        }
    }
}


/// The options of all six renaming steps.
#[derive(Debug)]
pub struct RenameOptions {
    pub name: NameOptions,
    pub case: CaseOptions,
    pub replace: ReplaceOptions,
    pub remove: RemoveOptions,
    pub add: AddOptions,
    pub numbering: NumberingOptions,
}

impl RenameOptions {
    /// The values a new window starts with.
    pub open spec fn is_initial(self) -> bool {
        &&& self.name.is_initial()
        &&& self.case.is_initial()
        &&& self.replace.is_initial()
        &&& self.remove.is_initial()
        &&& self.add.is_initial()
        &&& self.numbering.is_initial()
    }
}

impl Default for RenameOptions {
    fn default() -> (r: Self)
        ensures
            r.is_initial(),
    {
        RenameOptions {
            name: NameOptions::default(),
            case: CaseOptions::default(),
            replace: ReplaceOptions::default(),
            remove: RemoveOptions::default(),
            add: AddOptions::default(),
            numbering: NumberingOptions::default(),
        }
    }
}

/// The renamer's state.
#[derive(Debug)]
pub struct BulkGui {
    pub os_string: &'static str,
    pub version: &'static str,
    pub program_name: &'static str,
    /// No frame has been drawn yet.
    pub first_cycle: bool,
    /// The folder must be read again.
    pub update_all: bool,
    /// List unreadable folders in the browser too.
    pub show_all_items: bool,
    pub errors: Vec<String>,
    pub edits_redo: Vec<Edit>,
    pub edits_undo: Vec<Edit>,
    pub files_selected: Vec<String>,
    /// How many of the six renaming steps are enabled.
    pub modifications_total: u16,
    pub default_path: String,
    /// Which error the error dialog shows.
    pub window_error_index: usize,
    pub window_error_text_box: String,
    pub dialogs: Dialogs,
    pub sections: Sections,
    pub browser: Browser,
    pub table: FileTable,
    pub options: RenameOptions,
    pub controls: Controls,
}

impl BulkGui {
    /// The values a new window starts with.
    pub open spec fn is_initial(self) -> bool {
        &&& self.os_string@ == ""@
        &&& self.version@ == "0.9.11.2"@
        &&& self.program_name@ == "Bulk Rename"@
        &&& self.first_cycle
        &&& self.update_all
        &&& !self.show_all_items
        &&& self.errors@.len() == 0
        &&& self.edits_redo@.len() == 0
        &&& self.edits_undo@.len() == 0
        &&& self.files_selected@.len() == 0
        &&& self.modifications_total == 0
        &&& self.default_path@ == Seq::<char>::empty()
        &&& self.window_error_index == 0
        &&& self.window_error_text_box@ == Seq::<char>::empty()
        &&& self.dialogs.is_initial()
        &&& self.sections.is_initial()
        &&& self.browser.is_initial()
        &&& self.table.is_initial()
        &&& self.options.is_initial()
        &&& self.controls.is_initial()
    }
}

impl Default for BulkGui {
    fn default() -> (r: Self)
        ensures
            r.is_initial(),
    {
        BulkGui {
            os_string: "",
            version: "0.9.11.2",
            program_name: "Bulk Rename",
            first_cycle: true,
            update_all: true,
            show_all_items: false,
            errors: Vec::new(),
            edits_redo: Vec::new(),
            edits_undo: Vec::new(),
            files_selected: Vec::new(),
            modifications_total: 0,
            default_path: String::new(),
            window_error_index: 0,
            window_error_text_box: String::new(),
            dialogs: Dialogs::default(),
            sections: Sections::default(),
            browser: Browser::default(),
            table: FileTable::default(),
            options: RenameOptions::default(),
            controls: Controls::default(),
        }
    }
}

/// The dialogs of the window.
#[derive(Clone, Copy, Debug, PartialEq, Eq, Structural)]
pub enum Dialog {
    Save,
    Saving,
    Preview,
    Error,
    Undo,
    Redo,
}

/// Whether dialog `d` is shown.
pub open spec fn dialog_shown(g: Dialogs, d: Dialog) -> bool {
    match d {
        Dialog::Save => g.open_save,
        Dialog::Saving => g.open_saving,
        Dialog::Preview => g.open_preview,
        Dialog::Error => g.open_error,
        Dialog::Undo => g.open_undo,
        Dialog::Redo => g.open_redo,
    }
}

/// `g` with dialog `d` shown (`open`) or hidden.
pub open spec fn set_shown(g: Dialogs, d: Dialog, open: bool) -> Dialogs {
    match d {
        Dialog::Save => Dialogs { open_save: open, ..g },
        Dialog::Saving => Dialogs { open_saving: open, ..g },
        Dialog::Preview => Dialogs { open_preview: open, ..g },
        Dialog::Error => Dialogs { open_error: open, ..g },
        Dialog::Undo => Dialogs { open_undo: open, ..g },
        Dialog::Redo => Dialogs { open_redo: open, ..g },
    }
}

/// `g` with dialog `d` shown (`open`) or hidden.  While a dialog is shown
/// the browser, files and options sections take no input; when it is
/// hidden they take input again.
pub open spec fn with_dialog(g: BulkGui, d: Dialog, open: bool) -> BulkGui {
    BulkGui {
        dialogs: set_shown(g.dialogs, d, open),
        sections: Sections {
            browser_enabled: !open,
            files_enabled: !open,
            options_enabled: !open,
            ..g.sections
        },
        ..g
    }
}

impl Dialogs {
    /// Shows or hides dialog `d`.
    pub fn set_shown(&mut self, d: Dialog, open: bool)
        ensures
            *final(self) == set_shown(*old(self), d, open),
    {
        match d {
            Dialog::Save => self.open_save = open,
            Dialog::Saving => self.open_saving = open,
            Dialog::Preview => self.open_preview = open,
            Dialog::Error => self.open_error = open,
            Dialog::Undo => self.open_undo = open,
            Dialog::Redo => self.open_redo = open,
        }
    }
}

impl Sections {
    /// Lets the browser, files and options sections take input or not.
    pub fn set_input(&mut self, enabled: bool)
        ensures
            *final(self) == (Sections {
                browser_enabled: enabled,
                files_enabled: enabled,
                options_enabled: enabled,
                ..*old(self)
            }),
    {
        self.browser_enabled = enabled;
        self.files_enabled = enabled;
        self.options_enabled = enabled;
    }
}

impl BulkGui {
    /// Shows or hides dialog `d`, disabling or enabling the sections.
    pub fn set_dialog(&mut self, d: Dialog, open: bool)
        ensures
            *final(self) == with_dialog(*old(self), d, open),
    {
        self.dialogs.set_shown(d, open);
        self.sections.set_input(!open);
    }

    /// Shows the save dialog.
    pub fn window_save_open(&mut self)
        ensures
            *final(self) == with_dialog(*old(self), Dialog::Save, true),
    {
        self.set_dialog(Dialog::Save, true);
    }

    /// Hides the save dialog.
    pub fn window_save_close(&mut self)
        ensures
            *final(self) == with_dialog(*old(self), Dialog::Save, false),
    {
        self.set_dialog(Dialog::Save, false);
    }

    /// Shows the saving dialog.
    pub fn window_saving_open(&mut self)
        ensures
            *final(self) == with_dialog(*old(self), Dialog::Saving, true),
    {
        self.set_dialog(Dialog::Saving, true);
    }

    /// Hides the saving dialog.
    pub fn window_saving_close(&mut self)
        ensures
            *final(self) == with_dialog(*old(self), Dialog::Saving, false),
    {
        self.set_dialog(Dialog::Saving, false);
    }

    /// Shows the preview dialog.
    pub fn window_preview_open(&mut self)
        ensures
            *final(self) == with_dialog(*old(self), Dialog::Preview, true),
    {
        self.set_dialog(Dialog::Preview, true);
    }

    /// Hides the preview dialog.
    pub fn window_preview_close(&mut self)
        ensures
            *final(self) == with_dialog(*old(self), Dialog::Preview, false),
    {
        self.set_dialog(Dialog::Preview, false);
    }

    /// Shows the error dialog.
    pub fn window_error_open(&mut self)
        ensures
            *final(self) == with_dialog(*old(self), Dialog::Error, true),
    {
        self.set_dialog(Dialog::Error, true);
    }

    /// Hides the error dialog.
    pub fn window_error_close(&mut self)
        ensures
            *final(self) == with_dialog(*old(self), Dialog::Error, false),
    {
        self.set_dialog(Dialog::Error, false);
    }

    /// Shows the undo dialog.
    pub fn window_undo_open(&mut self)
        ensures
            *final(self) == with_dialog(*old(self), Dialog::Undo, true),
    {
        self.set_dialog(Dialog::Undo, true);
    }

    /// Hides the undo dialog.
    pub fn window_undo_close(&mut self)
        ensures
            *final(self) == with_dialog(*old(self), Dialog::Undo, false),
    {
        self.set_dialog(Dialog::Undo, false);
    }

    /// Shows the redo dialog.
    pub fn window_redo_open(&mut self)
        ensures
            *final(self) == with_dialog(*old(self), Dialog::Redo, true),
    {
        self.set_dialog(Dialog::Redo, true);
    }

    /// Hides the redo dialog.
    pub fn window_redo_close(&mut self)
        ensures
            *final(self) == with_dialog(*old(self), Dialog::Redo, false),
    {
        self.set_dialog(Dialog::Redo, false);
    }
}

/// Showing a dialog and hiding it again is hiding it.
proof fn lemma_set_shown_twice(x: Dialogs, d: Dialog)
    ensures
        set_shown(set_shown(x, d, true), d, false) == set_shown(x, d, false),
        !dialog_shown(x, d) ==> set_shown(x, d, false) == x,
{
    match d {
        Dialog::Save => {},
        Dialog::Saving => {},
        Dialog::Preview => {},
        Dialog::Error => {},
        Dialog::Undo => {},
        Dialog::Redo => {},
    }
}

/// Showing a dialog and hiding it again leaves the dialog hidden and the
/// sections taking input, everything else as it was; from a state with
/// the dialog hidden and the sections taking input it is that state.
pub proof fn lemma_dialog_open_close(g: BulkGui, d: Dialog)
    ensures
        with_dialog(with_dialog(g, d, true), d, false) == with_dialog(g, d, false),
        g.sections.browser_enabled && g.sections.files_enabled && g.sections.options_enabled
            && !dialog_shown(g.dialogs, d) ==> with_dialog(with_dialog(g, d, true), d, false) == g,
{
    lemma_set_shown_twice(g.dialogs, d);
}


// ---------------------------------------------------------------- saving, undo and redo

/// The table can be saved: every new name has its file name and its
/// selection flag (saving walks the new names).
pub open spec fn save_ready(t: FileTable) -> bool {
    &&& t.files@.len() >= t.renamed@.len()
    &&& t.selected@.len() >= t.renamed@.len()
}

/// The new names can be worked out: every file has its selection flag
/// (renaming walks the files).
pub open spec fn rename_ready(t: FileTable) -> bool {
    t.selected@.len() >= t.files@.len()
}

impl FileTable {
    /// Whether the table can be saved.
    pub fn can_save(&self) -> (r: bool)
        ensures
            r == save_ready(*self),
    {
        self.files.len() >= self.renamed.len() && self.selected.len() >= self.renamed.len()
    }

    /// Whether the new names can be worked out.
    pub fn can_rename(&self) -> (r: bool)
        ensures
            r == rename_ready(*self),
    {
        self.selected.len() >= self.files.len()
    }
}

/// The indices `i` with `sel[i]`, in increasing order.
pub open spec fn selected_indices(sel: Seq<bool>) -> Seq<int>
    decreases sel.len(),
{
    if sel.len() == 0 {
        Seq::empty()
    } else if sel.last() {
        selected_indices(sel.drop_last()).push(sel.len() - 1)
    } else {
        selected_indices(sel.drop_last())
    }
}

/// `item` renames file `i` of the table to its new name, in the current folder.
pub open spec fn is_save_item(item: EdittedItem, g: BulkGui, i: int) -> bool {
    &&& item.name_original@ == g.table.files@[i]@
    &&& item.name_edited@ == g.table.renamed@[i]@
    &&& item.path_original@ == g.browser.path_current@ + g.table.files@[i]@
    &&& item.path_edited@ == g.browser.path_current@ + g.table.renamed@[i]@
}

/// The files that saving renames: the selected ones among those with a
/// new name, in table order.
pub open spec fn save_indices(t: FileTable) -> Seq<int> {
    selected_indices(t.selected@.take(t.renamed@.len() as int))
}

/// `e` is the batch that saving `g` applies: one rename per selected
/// file with a new name, in table order.
pub open spec fn is_save_edit(e: Edit, g: BulkGui) -> bool {
    let idx = save_indices(g.table);
    &&& e.tag@ == Seq::<char>::empty()
    &&& e.items@.len() == idx.len()
    &&& e.edits == idx.len()
    &&& forall|a: int| 0 <= a < idx.len() ==> is_save_item(#[trigger] e.items@[a], g, idx[a])
}

/// Saving has begun: the saving dialog is shown and `e` is the batch to apply.
pub open spec fn save_begun(g: BulkGui, h: BulkGui, e: Edit) -> bool {
    &&& h == with_dialog(g, Dialog::Saving, true)
    &&& is_save_edit(e, g)
}

/// A rename failed with `message`: the message is kept and the error
/// dialog flagged.
pub open spec fn rename_failed_state(g: BulkGui, h: BulkGui, message: String) -> bool {
    &&& h.errors@ == g.errors@.push(message)
    &&& h == BulkGui { errors: h.errors, dialogs: Dialogs { open_error: true, ..g.dialogs }, ..g }
}

/// Saving `e` has finished: the saving dialog is hidden, the folder is to
/// be read again, `e` is the only batch to undo and nothing is left to redo.
pub open spec fn save_finished(g: BulkGui, h: BulkGui, e: Edit) -> bool {
    &&& h.edits_undo@ == seq![e]
    &&& h.edits_redo@.len() == 0
    &&& h == BulkGui {
        update_all: true,
        edits_undo: h.edits_undo,
        edits_redo: h.edits_redo,
        ..with_dialog(g, Dialog::Saving, false)
    }
}

/// Undo has begun: the last saved batch is taken off the undo list and
/// `e`, the batch that takes it back, is to be applied.
pub open spec fn undo_begun(g: BulkGui, h: BulkGui, e: Edit) -> bool {
    &&& g.edits_undo@.len() > 0
    &&& h.edits_undo@ == g.edits_undo@.drop_last()
    &&& is_inverse_of(e, g.edits_undo@.last())
    &&& h == BulkGui { edits_undo: h.edits_undo, ..with_dialog(g, Dialog::Saving, true) }
}

/// Undo of `e` has finished: `e` goes on the redo list.
pub open spec fn undo_finished(g: BulkGui, h: BulkGui, e: Edit) -> bool {
    &&& h.edits_redo@ == g.edits_redo@.push(e)
    &&& h == BulkGui {
        update_all: true,
        edits_redo: h.edits_redo,
        ..with_dialog(g, Dialog::Saving, false)
    }
}

/// Redo has begun: the last undone batch is taken off the redo list and
/// `e`, the batch that takes it back, is to be applied.
pub open spec fn redo_begun(g: BulkGui, h: BulkGui, e: Edit) -> bool {
    &&& g.edits_redo@.len() > 0
    &&& h.edits_redo@ == g.edits_redo@.drop_last()
    &&& is_inverse_of(e, g.edits_redo@.last())
    &&& h == BulkGui { edits_redo: h.edits_redo, ..with_dialog(g, Dialog::Saving, true) }
}

/// Redo of `e` has finished: `e` goes on the undo list.
pub open spec fn redo_finished(g: BulkGui, h: BulkGui, e: Edit) -> bool {
    &&& h.edits_undo@ == g.edits_undo@.push(e)
    &&& h == BulkGui {
        update_all: true,
        edits_undo: h.edits_undo,
        ..with_dialog(g, Dialog::Saving, false)
    }
}

/// Taking the first `n` flags adds the index `n` when flag `n` is set.
pub proof fn lemma_selected_indices_step(sel: Seq<bool>, n: int)
    requires
        0 <= n < sel.len(),
    ensures
        selected_indices(sel.take(n + 1)) == if sel[n] {
            selected_indices(sel.take(n)).push(n)
        } else {
            selected_indices(sel.take(n))
        },
{
    assert(sel.take(n + 1).drop_last() =~= sel.take(n));
}

/// The selected indices are in range and increasing.
pub proof fn lemma_selected_indices_props(sel: Seq<bool>)
    ensures
        selected_indices(sel).len() <= sel.len(),
        forall|a: int|
            0 <= a < selected_indices(sel).len() ==> 0 <= #[trigger] selected_indices(sel)[a]
                < sel.len() && sel[selected_indices(sel)[a]],
        forall|a: int, b: int|
            0 <= a < b < selected_indices(sel).len() ==> #[trigger] selected_indices(sel)[a]
                < #[trigger] selected_indices(sel)[b],
        forall|i: int|
            0 <= i < sel.len() && sel[i] ==> exists|a: int|
                0 <= a < selected_indices(sel).len() && #[trigger] selected_indices(sel)[a] == i,
    decreases sel.len(),
{
    if sel.len() > 0 {
        let d = sel.drop_last();
        lemma_selected_indices_props(d);
        assert forall|i: int| 0 <= i < sel.len() && sel[i] implies exists|a: int|
            0 <= a < selected_indices(sel).len() && #[trigger] selected_indices(sel)[a] == i by {
            if i < sel.len() - 1 {
                assert(d[i] == sel[i]);
                let a0 = choose|a: int|
                    0 <= a < selected_indices(d).len() && #[trigger] selected_indices(d)[a] == i;
                assert(selected_indices(sel)[a0] == i);
            } else {
                assert(selected_indices(sel)[selected_indices(sel).len() - 1] == i);
            }
        }
    }
}

impl BulkGui {
    /// Begins saving: shows the saving dialog and returns the batch of
    /// renames to apply, one per selected file.
    pub fn save_begin(&mut self) -> (e: Edit)
        requires
            save_ready(old(self).table),
            save_indices(old(self).table).len() <= u32::MAX,
        ensures
            save_begun(*old(self), *final(self), e),
    {
        let ghost g = *self;
        self.window_saving_open();
        let mut items: Vec<EdittedItem> = Vec::new();
        let mut edits: u32 = 0;
        let mut i: usize = 0;
        let n = self.table.renamed.len();
        while i < n
            invariant
                n == g.table.renamed@.len(),
                *self == with_dialog(g, Dialog::Saving, true),
                save_ready(g.table),
                save_indices(g.table).len() <= u32::MAX,
                i <= n,
                items@.len() == selected_indices(g.table.selected@.take(i as int)).len(),
                edits == items@.len(),
                forall|a: int|
                    0 <= a < items@.len() ==> is_save_item(
                        #[trigger] items@[a],
                        g,
                        selected_indices(g.table.selected@.take(i as int))[a],
                    ),
            decreases n - i,
        {
            proof {
                lemma_selected_indices_step(g.table.selected@, i as int);
                lemma_selected_indices_props(g.table.selected@.take(i + 1));
                lemma_selected_indices_prefix_len(g.table.selected@, i + 1, n as int);
            }
            if self.table.selected[i] {
                let name_original = self.table.files[i].clone();
                let name_edited = self.table.renamed[i].clone();
                let mut path_original = self.browser.path_current.clone();
                path_original.append(name_original.as_str());
                let mut path_edited = self.browser.path_current.clone();
                path_edited.append(name_edited.as_str());
                items.push(EdittedItem { name_original, name_edited, path_original, path_edited });
                edits = edits + 1;
            }
            i = i + 1;
        }
        Edit { tag: String::new(), items, edits }
    }

    /// Records that a rename of the batch failed with `message`.
    pub fn rename_failed(&mut self, message: String)
        ensures
            rename_failed_state(*old(self), *final(self), message),
    {
        self.errors.push(message);
        self.dialogs.open_error = true;
    }

    /// Ends saving `e`: hides the saving dialog, asks for the folder to be
    /// read again and makes `e` the one batch to undo.
    pub fn save_finish(&mut self, e: Edit)
        ensures
            save_finished(*old(self), *final(self), e),
    {
        self.window_saving_close();
        self.update_all = true;
        self.edits_undo.clear();
        self.edits_redo.clear();
        self.edits_undo.push(e);
    }

    /// Begins undo: shows the saving dialog, takes the last batch off the
    /// undo list and returns the batch that takes it back.
    pub fn undo_begin(&mut self) -> (e: Edit)
        requires
            old(self).edits_undo@.len() > 0,
            old(self).edits_undo@.last().items@.len() <= u32::MAX,
        ensures
            undo_begun(*old(self), *final(self), e),
    {
        self.window_saving_open();
        let last = self.edits_undo.pop().unwrap();
        inverse_edit(&last)
    }

    /// Ends undo of `e`: hides the saving dialog, asks for the folder to be
    /// read again and puts `e` on the redo list.
    pub fn undo_finish(&mut self, e: Edit)
        ensures
            undo_finished(*old(self), *final(self), e),
    {
        self.window_saving_close();
        self.update_all = true;
        self.edits_redo.push(e);
    }

    /// Begins redo: shows the saving dialog, takes the last batch off the
    /// redo list and returns the batch that takes it back.
    pub fn redo_begin(&mut self) -> (e: Edit)
        requires
            old(self).edits_redo@.len() > 0,
            old(self).edits_redo@.last().items@.len() <= u32::MAX,
        ensures
            redo_begun(*old(self), *final(self), e),
    {
        self.window_saving_open();
        let last = self.edits_redo.pop().unwrap();
        inverse_edit(&last)
    }

    /// Ends redo of `e`: hides the saving dialog, asks for the folder to be
    /// read again and puts `e` on the undo list.
    pub fn redo_finish(&mut self, e: Edit)
        ensures
            redo_finished(*old(self), *final(self), e),
    {
        self.window_saving_close();
        self.update_all = true;
        self.edits_undo.push(e);
    }
}

/// A prefix of the flags has no more selected indices than the whole.
pub proof fn lemma_selected_indices_prefix_len(sel: Seq<bool>, m: int, n: int)
    requires
        0 <= m <= n <= sel.len(),
    ensures
        selected_indices(sel.take(m)).len() <= selected_indices(sel.take(n)).len(),
    decreases n - m,
{
    if m < n {
        lemma_selected_indices_step(sel, n - 1);
        lemma_selected_indices_prefix_len(sel, m, n - 1);
    }
}


/// Undo takes back the last batch and redo takes back the undo: after
/// saving `e`, undo applies the swapped renames of `e` and leaves nothing
/// to undo, and the redo that follows applies the renames of `e` again.
pub proof fn lemma_save_undo_redo(
    g0: BulkGui,
    e: Edit,
    g1: BulkGui,
    inv: Edit,
    g2: BulkGui,
    g3: BulkGui,
    back: Edit,
    g4: BulkGui,
)
    requires
        save_finished(g0, g1, e),
        undo_begun(g1, g2, inv),
        undo_finished(g2, g3, inv),
        redo_begun(g3, g4, back),
    ensures
        is_inverse_of(inv, e),
        g2.edits_undo@.len() == 0,
        g3.edits_redo@ == seq![inv],
        back.items@ == e.items@,
        g4.edits_undo@.len() == 0,
        g4.edits_redo@.len() == 0,
{
    assert(g1.edits_undo@.last() == e);
    assert(g3.edits_redo@ =~= seq![inv]);
    assert(g3.edits_redo@.last() == inv);
    crate::edit::lemma_inverse_of_inverse(e, inv, back);
}

/// Undo moves one batch from the undo list to the redo list, as the batch
/// that takes it back; every other batch stays where it was.
pub proof fn lemma_undo_moves_batch(g0: BulkGui, inv: Edit, g1: BulkGui, g2: BulkGui)
    requires
        undo_begun(g0, g1, inv),
        undo_finished(g1, g2, inv),
    ensures
        g2.edits_undo@ == g0.edits_undo@.drop_last(),
        g2.edits_redo@ == g0.edits_redo@.push(inv),
        is_inverse_of(g2.edits_redo@.last(), g0.edits_undo@.last()),
{
}

} // verus!
