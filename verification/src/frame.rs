//! What the window does on each frame and on each user action, apart from
//! drawing: derived flags and totals, option choices, file selection,
//! error browsing and panel resizing.

use vstd::prelude::*;
use crate::gui::{
    rename_ready, selected_indices, BulkGui, CaseOptions, Controls, Dialogs, FileTable, NameOptions,
    NumberingOptions, RenameOptions, Sections,
};
use crate::pipeline::{
    extension_part, has_suffix, kept_extension, lemma_renames, renames_spec,
};
use crate::rename::{
    documented_extension, extension_text, is_portable_file_name, path_extension, CaseMode,
    NamingMode, NumberingMode,
};

verus! {

// ---------------------------------------------------------------- totals and flags

/// How many of the six renaming steps are enabled.
pub open spec fn enabled_steps(o: RenameOptions) -> nat {
    (if o.name.enabled { 1nat } else { 0nat }) + (if o.case.enabled { 1nat } else { 0nat }) + (
    if o.replace.enabled { 1nat } else { 0nat }) + (if o.remove.enabled { 1nat } else { 0nat }) + (
    if o.add.enabled { 1nat } else { 0nat }) + (if o.numbering.enabled { 1nat } else { 0nat })
}

/// The totals and button states of `g` recomputed: the number of enabled
/// steps; preview and save possible iff a step is enabled; undo and redo
/// possible iff there is a batch for them; the save box takes input iff a
/// file is selected and a step is enabled.
pub open spec fn with_totals(g: BulkGui) -> BulkGui {
    let total = enabled_steps(g.options);
    BulkGui {
        modifications_total: total as u16,
        dialogs: Dialogs { preview_enabled: total != 0, save_enabled: total != 0, ..g.dialogs },
        controls: Controls {
            undo_enabled: g.edits_undo@.len() >= 1,
            redo_enabled: g.edits_redo@.len() >= 1,
            ..g.controls
        },
        sections: Sections {
            options_save_enabled: g.table.selected_vec@.len() >= 1 && total >= 1,
            ..g.sections
        },
        ..g
    }
}

/// The flags of the option widgets that follow from the chosen modes: the
/// name box takes input for `Remove`; the case range for any mode but
/// `Same`; the numbering widgets for any mode but none, and its position
/// for `Insert`.
pub open spec fn with_option_flags(o: RenameOptions) -> RenameOptions {
    RenameOptions {
        name: NameOptions {
            textbox_enabled: o.name.combobox_value == NamingMode::Remove,
            ..o.name
        },
        case: CaseOptions { widgets_enabled: o.case.combobox_value != CaseMode::Same, ..o.case },
        numbering: NumberingOptions {
            insert_enabled: o.numbering.combobox_value == NumberingMode::Insert,
            widgets_enabled: o.numbering.combobox_value != NumberingMode::Off,
            ..o.numbering
        },
        ..o
    }
}

/// The indices of the selected files as `usize`.
pub open spec fn selected_vec_of(sel: Seq<bool>) -> Seq<usize> {
    selected_indices(sel).map_values(|i: int| i as usize)
}

fn flag(b: bool) -> (r: u16)
    ensures
        r == (if b {
            1nat
        } else {
            0nat
        }),
{
    if b {
        1
    } else {
        0
    }
}

/// How many of the six renaming steps are enabled.
pub fn count_enabled(o: &RenameOptions) -> (r: u16)
    ensures
        r == enabled_steps(*o),
{
    flag(o.name.enabled) + flag(o.case.enabled) + flag(o.replace.enabled) + flag(o.remove.enabled)
        + flag(o.add.enabled) + flag(o.numbering.enabled)
}

impl Dialogs {
    /// Allows or forbids the preview and save dialogs.
    pub fn allow_preview_and_save(&mut self, allowed: bool)
        ensures
            *final(self) == (Dialogs {
                preview_enabled: allowed,
                save_enabled: allowed,
                ..*old(self)
            }),
    {
        self.preview_enabled = allowed;
        self.save_enabled = allowed;
    }
}

impl Controls {
    /// Enables or disables the undo and redo buttons.
    pub fn allow_history(&mut self, undo: bool, redo: bool)
        ensures
            *final(self) == (Controls { undo_enabled: undo, redo_enabled: redo, ..*old(self) }),
    {
        self.undo_enabled = undo;
        self.redo_enabled = redo;
    }
}

impl BulkGui {
    /// Recomputes the number of enabled steps and the button states.
    pub fn refresh_totals(&mut self)
        ensures
            *final(self) == with_totals(*old(self)),
    {
        let total = count_enabled(&self.options);
        self.modifications_total = total;
        self.dialogs.allow_preview_and_save(total != 0);
        let undo = self.edits_undo.len() >= 1;
        let redo = self.edits_redo.len() >= 1;
        self.controls.allow_history(undo, redo);
        let save_box = self.table.selected_vec.len() >= 1 && self.modifications_total >= 1;
        self.sections.options_save_enabled = save_box;
    }

    /// Sets the option widget flags that follow from the chosen modes.
    pub fn refresh_option_flags(&mut self)
        ensures
            *final(self) == (BulkGui { options: with_option_flags(old(self).options), ..*old(self) }),
    {
        self.options.name.textbox_enabled = self.options.name.combobox_value == NamingMode::Remove;
        self.options.case.widgets_enabled = self.options.case.combobox_value != CaseMode::Same;
        self.options.numbering.insert_enabled = self.options.numbering.combobox_value
            == NumberingMode::Insert;
        self.options.numbering.widgets_enabled = self.options.numbering.combobox_value
            != NumberingMode::Off;
    }

    /// Rebuilds the list of selected file indices.
    pub fn refresh_selected_vec(&mut self)
        ensures
            final(self).table.selected_vec@ == selected_vec_of(old(self).table.selected@),
            *final(self) == (BulkGui {
                table: FileTable { selected_vec: final(self).table.selected_vec, ..old(self).table },
                ..*old(self)
            }),
    {
        let mut elements: Vec<usize> = Vec::new();
        let n = self.table.selected.len();
        let mut i: usize = 0;
        while i < n
            invariant
                n == self.table.selected@.len(),
                i <= n,
                elements@ == selected_vec_of(self.table.selected@.take(i as int)),
            decreases n - i,
        {
            proof {
                assert(self.table.selected@.take(i + 1).drop_last() =~= self.table.selected@.take(
                    i as int,
                ));
            }
            if self.table.selected[i] {
                elements.push(i);
            }
            i = i + 1;
            assert(elements@ =~= selected_vec_of(self.table.selected@.take(i as int)));
        }
        assert(self.table.selected@.take(n as int) =~= self.table.selected@);
        self.table.selected_vec = elements;
    }

    /// Recomputes the new names of the files; `false`, with nothing
    /// changed, where some file cannot be renamed as the options say.
    pub fn refresh_renames(&mut self) -> (ok: bool)
        requires
            rename_ready(old(self).table),
        ensures
            match renames_spec(old(self).options, old(self).table.files.deep_view(), old(self).table.selected@) {
                Some((names, total)) => {
                    &&& ok
                    &&& old(self).table.files@.len() >= 1 ==> final(self).table.renamed.deep_view() == names
                    &&& old(self).table.files@.len() == 0 ==> final(self).table.renamed == old(self).table.renamed
                    &&& *final(self) == (BulkGui {
                        table: FileTable {
                            renamed: final(self).table.renamed,
                            selected_total: total,
                            ..old(self).table
                        },
                        ..*old(self)
                    })
                    &&& old(self).table.files@.len() >= 1 ==> final(self).table.renamed@.len()
                        == old(self).table.files@.len()
                    &&& forall|i: int|
                        0 <= i < old(self).table.files@.len() && !old(self).table.selected@[i]
                            ==> #[trigger] final(self).table.renamed@[i]@
                            == old(self).table.files@[i]@
                    &&& forall|i: int|
                        0 <= i < old(self).table.files@.len() ==> has_suffix(
                            #[trigger] final(self).table.renamed@[i]@,
                            kept_extension(old(self).table.files@[i]@),
                        )
                    &&& forall|i: int|
                        0 <= i < old(self).table.files@.len() && is_portable_file_name(
                            old(self).table.files@[i]@,
                        ) ==> has_suffix(
                            #[trigger] final(self).table.renamed@[i]@,
                            extension_part(old(self).table.files@[i]@),
                        )
                },
                None => !ok && *final(self) == *old(self),
            },
            forall|i: int|
                0 <= i < old(self).table.files@.len() && is_portable_file_name(
                    #[trigger] old(self).table.files@[i]@,
                ) ==> extension_text(path_extension(old(self).table.files@[i]@)) == extension_text(
                    documented_extension(old(self).table.files@[i]@),
                ),
    {
        let ghost files = self.table.files.deep_view();
        let ghost sel = self.table.selected@;
        match self.options.renames(&self.table.files, &self.table.selected) {
            None => false,
            Some((names, total)) => {
                proof {
                    lemma_renames(self.options, files, sel);
                }
                self.table.selected_total = total;
                if self.table.files.len() >= 1 {
                    self.table.renamed = names;
                }
                proof {
                    if files.len() >= 1 {
                        let new_names = renames_spec(self.options, files, sel).unwrap().0;
                        let r = self.table.renamed;
                        assert(r.deep_view() == new_names);
                        assert forall|i: int| 0 <= i < files.len() implies #[trigger] r@[i]@
                            == new_names[i] && files[i] == self.table.files@[i]@ by {
                            assert(r.deep_view()[i] == r@[i]@);
                        }
                    }
                }
                true
            },
        }
    }
}

// ---------------------------------------------------------------- option choices

/// What the name mode box shows for each mode.
pub open spec fn naming_label(m: NamingMode) -> Seq<char> {
    match m {
        NamingMode::Keep => "Keep"@,
        NamingMode::Remove => "Remove"@,
        NamingMode::Reverse => "Reverse"@,
    }
}

/// What the case mode box shows for each mode.
pub open spec fn case_label(m: CaseMode) -> Seq<char> {
    match m {
        CaseMode::Same => "Same"@,
        CaseMode::Upper => "Upper"@,
        CaseMode::Lower => "Lower"@,
    }
}

/// What the numbering mode box shows for each mode.
pub open spec fn numbering_label(m: NumberingMode) -> Seq<char> {
    match m {
        NumberingMode::Off => "None"@,
        NumberingMode::Prefix => "Prefix"@,
        NumberingMode::Suffix => "Suffix"@,
        NumberingMode::PrefixAndSuffix => "Pre+Suffix"@,
        NumberingMode::Insert => "Insert"@,
    }
}

impl BulkGui {
    /// Chooses the name mode.
    pub fn choose_naming_mode(&mut self, m: NamingMode)
        ensures
            final(self).options.name.combobox_name@ == naming_label(m),
            *final(self) == (BulkGui {
                options: RenameOptions {
                    name: NameOptions {
                        combobox_value: m,
                        combobox_name: final(self).options.name.combobox_name,
                        ..old(self).options.name
                    },
                    ..old(self).options
                },
                ..*old(self)
            }),
    {
        self.options.name.combobox_value = m;
        self.options.name.combobox_name = match m {
            NamingMode::Keep => String::from_str("Keep"),
            NamingMode::Remove => String::from_str("Remove"),
            NamingMode::Reverse => String::from_str("Reverse"),
        };
    }

    /// Chooses the case mode.
    pub fn choose_case_mode(&mut self, m: CaseMode)
        ensures
            final(self).options.case.combobox_name@ == case_label(m),
            *final(self) == (BulkGui {
                options: RenameOptions {
                    case: CaseOptions {
                        combobox_value: m,
                        combobox_name: final(self).options.case.combobox_name,
                        ..old(self).options.case
                    },
                    ..old(self).options
                },
                ..*old(self)
            }),
    {
        self.options.case.combobox_value = m;
        self.options.case.combobox_name = match m {
            CaseMode::Same => String::from_str("Same"),
            CaseMode::Upper => String::from_str("Upper"),
            CaseMode::Lower => String::from_str("Lower"),
        };
    }

    /// Chooses the numbering mode.
    pub fn choose_numbering_mode(&mut self, m: NumberingMode)
        ensures
            final(self).options.numbering.combobox_name@ == numbering_label(m),
            *final(self) == (BulkGui {
                options: RenameOptions {
                    numbering: NumberingOptions {
                        combobox_value: m,
                        combobox_name: final(self).options.numbering.combobox_name,
                        ..old(self).options.numbering
                    },
                    ..old(self).options
                },
                ..*old(self)
            }),
    {
        self.options.numbering.combobox_value = m;
        self.options.numbering.combobox_name = match m {
            NumberingMode::Off => String::from_str("None"),
            NumberingMode::Prefix => String::from_str("Prefix"),
            NumberingMode::Suffix => String::from_str("Suffix"),
            NumberingMode::PrefixAndSuffix => String::from_str("Pre+Suffix"),
            NumberingMode::Insert => String::from_str("Insert"),
        };
    }
}

/// A value one up, as the `+` buttons and scrolling up do.
pub fn step_up(v: u32) -> (r: u32)
    requires
        v < u32::MAX,
    ensures
        r == v + 1,
{
    v + 1
}

/// A value one down, but not below zero, as the `-` buttons and
/// scrolling down do.
pub fn step_down(v: u32) -> (r: u32)
    ensures
        r == if v >= 1 {
            v - 1
        } else {
            0
        },
{
    if v >= 1 {
        v - 1
    } else {
        v
    }
}

// ---------------------------------------------------------------- errors and panels

/// The files section's width after the browser width changes: what the
/// browser and options sections leave of 100 percent, or 0 where they
/// take more.
pub open spec fn files_percentage(browser: u8, options: u8) -> u8 {
    if browser + options > 100 {
        0
    } else {
        (100 - browser - options) as u8
    }
}

impl BulkGui {
    /// Shows the previous error, if there is one before it.
    pub fn error_previous(&mut self)
        ensures
            *final(self) == (BulkGui {
                window_error_index: if old(self).window_error_index > 0 {
                    (old(self).window_error_index - 1) as usize
                } else {
                    old(self).window_error_index
                },
                ..*old(self)
            }),
    {
        if self.window_error_index > 0 {
            self.window_error_index = self.window_error_index - 1;
        }
    }

    /// Shows the next error, if there is one after it.
    pub fn error_next(&mut self)
        requires
            old(self).errors@.len() >= 1,
        ensures
            *final(self) == (BulkGui {
                window_error_index: if old(self).window_error_index < old(self).errors@.len() - 1 {
                    (old(self).window_error_index + 1) as usize
                } else {
                    old(self).window_error_index
                },
                ..*old(self)
            }),
    {
        if self.window_error_index < self.errors.len() - 1 {
            self.window_error_index = self.window_error_index + 1;
        }
    }

    /// Gives the files section what the browser and options sections
    /// leave, after the browser width was changed.
    pub fn resize_files_section(&mut self)
        ensures
            *final(self) == (BulkGui {
                sections: Sections {
                    files_percentage_current: files_percentage(
                        old(self).sections.browser_percentage_current,
                        old(self).sections.options_percentage_current,
                    ),
                    ..old(self).sections
                },
                ..*old(self)
            }),
    {
        let b = self.sections.browser_percentage_current as u16;
        let o = self.sections.options_percentage_current as u16;
        self.sections.files_percentage_current = if b + o > 100 {
            0
        } else {
            (100 - b - o) as u8
        };
    }
}


// ---------------------------------------------------------------- selecting files

/// `n` flags, all set.
pub open spec fn all_set(n: nat) -> Seq<bool> {
    Seq::new(n, |i: int| true)
}

/// `sel` with the flags `lo..=hi` set.
pub open spec fn with_range_set(sel: Seq<bool>, lo: int, hi: int) -> Seq<bool> {
    Seq::new(sel.len(), |k: int| if lo <= k <= hi { true } else { sel[k] })
}

/// The selection after file `index` was clicked (or not) with the given
/// modifier keys: a shift-click (without ctrl) also selects every file
/// from the last clicked one to this one.
pub open spec fn selection_after_click(
    sel: Seq<bool>,
    last: int,
    index: int,
    clicked: bool,
    shift: bool,
    ctrl: bool,
) -> Seq<bool> {
    if clicked && shift && !ctrl && index > last {
        with_range_set(sel, last, index)
    } else if clicked && shift && !ctrl && index < last {
        with_range_set(sel, index, last)
    } else {
        sel
    }
}

impl FileTable {
    /// Sets every selection flag to `value`.
    pub fn set_all_selected(&mut self, value: bool)
        ensures
            final(self).selected@ == Seq::new(old(self).selected@.len(), |i: int| value),
            *final(self) == (FileTable { selected: final(self).selected, ..*old(self) }),
    {
        let n = self.selected.len();
        let mut i: usize = 0;
        while i < n
            invariant
                n == self.selected@.len(),
                i <= n,
                forall|k: int| 0 <= k < i ==> self.selected@[k] == value,
                *self == (FileTable { selected: self.selected, ..*old(self) }),
            decreases n - i,
        {
            self.selected.set(i, value);
            i = i + 1;
        }
        assert(self.selected@ =~= Seq::new(old(self).selected@.len(), |i: int| value));
    }

    /// Sets the flags `lo..=hi`.
    fn set_range(&mut self, lo: usize, hi: usize)
        requires
            lo <= hi < old(self).selected@.len(),
        ensures
            final(self).selected@ == with_range_set(old(self).selected@, lo as int, hi as int),
            *final(self) == (FileTable { selected: final(self).selected, ..*old(self) }),
    {
        let mut i = lo;
        while i < hi
            invariant
                lo <= i <= hi,
                hi < self.selected@.len(),
                self.selected@.len() == old(self).selected@.len(),
                forall|k: int|
                    0 <= k < self.selected@.len() ==> #[trigger] self.selected@[k] == if lo <= k
                        < i {
                        true
                    } else {
                        old(self).selected@[k]
                    },
                *self == (FileTable { selected: self.selected, ..*old(self) }),
            decreases hi - i,
        {
            self.selected.set(i, true);
            i = i + 1;
        }
        self.selected.set(hi, true);
        assert(self.selected@ =~= with_range_set(old(self).selected@, lo as int, hi as int));
    }

    /// A file was drawn, clicked or not, with the given modifier keys.
    pub fn click(&mut self, index: usize, clicked: bool, shift: bool, ctrl: bool)
        requires
            index < old(self).selected@.len(),
            clicked && shift && !ctrl && index < old(self).last_selected ==> old(
                self,
            ).last_selected < old(self).selected@.len(),
        ensures
            final(self).selected@ == selection_after_click(
                old(self).selected@,
                old(self).last_selected as int,
                index as int,
                clicked,
                shift,
                ctrl,
            ),
            *final(self) == (FileTable {
                selected: final(self).selected,
                item_clicked: clicked,
                last_selected: if clicked {
                    index as u32
                } else {
                    old(self).last_selected
                },
                ..*old(self)
            }),
    {
        self.item_clicked = clicked;
        if self.item_clicked && shift && !ctrl {
            let last = self.last_selected as usize;
            if index > last {
                self.set_range(last, index);
            } else if index < last {
                self.set_range(index, last);
            }
        }
        if self.item_clicked {
            self.last_selected = index as u32;
        }
    }
}

impl BulkGui {
    /// Clears the selection.
    pub fn deselect_all_files(&mut self)
        ensures
            final(self).table.selected@ == Seq::new(old(self).table.selected@.len(), |i: int| false),
            *final(self) == (BulkGui {
                table: FileTable { selected: final(self).table.selected, ..old(self).table },
                ..*old(self)
            }),
    {
        self.table.set_all_selected(false);
    }

    /// Selects every file.
    pub fn select_all_files(&mut self)
        ensures
            final(self).table.selected@ == all_set(old(self).table.selected@.len()),
            *final(self) == (BulkGui {
                table: FileTable { selected: final(self).table.selected, ..old(self).table },
                ..*old(self)
            }),
    {
        self.table.set_all_selected(true);
    }

    /// A double click in the files section clears the selection, when
    /// that is enabled, no modifier key is held and no file was clicked.
    pub fn files_double_clicked(&mut self, ctrl: bool, shift: bool)
        ensures
            old(self).controls.double_click_deselect_enabled && !ctrl && !shift
                && !old(self).table.item_clicked ==> final(self).table.selected@ == Seq::new(
                old(self).table.selected@.len(),
                |i: int| false,
            ) && *final(self) == (BulkGui {
                table: FileTable { selected: final(self).table.selected, ..old(self).table },
                ..*old(self)
            }),
            !(old(self).controls.double_click_deselect_enabled && !ctrl && !shift
                && !old(self).table.item_clicked) ==> *final(self) == *old(self),
    {
        if self.controls.double_click_deselect_enabled && !ctrl && !shift
            && !self.table.item_clicked {
            self.deselect_all_files();
        }
    }
}

} // verus!
