//! The six renaming steps put together, for one stem and for the whole
//! file table.

use vstd::prelude::*;
use crate::gui::RenameOptions;
use crate::rename::{
    add_step, add_step_spec, case_step, case_step_spec, name_step, name_step_spec,
    number_text, number_text_exec, numbering_step, numbering_step_spec, path_extension,
    split_file_name, remove_step, remove_step_spec, replace_step, replace_step_spec,
    split_name_spec, lemma_split_name_rejoins, documented_extension, extension_text,
    is_portable_file_name, lemma_documented_split, lemma_remove_step_ascii, lemma_add_step_ends,
    CaseMode, NamingMode, NumberingMode,
};
use crate::gui::{lemma_selected_indices_step, selected_indices};
use crate::text::{
    chars_of, concat_chars, lemma_chars_deep_view, string_of, is_ascii, lowercase, uppercase,
};

verus! {

/// The new stem of the `count`-th selected file: the enabled steps in
/// order (name, case, replace, remove, add, numbering).  `None` where a
/// step cannot be carried out, or where the number `start + count - 1`
/// does not fit in `u32` as the sum `start + count` is formed.
pub open spec fn rename_stem_spec(o: RenameOptions, stem: Seq<char>, count: u32) -> Option<
    Seq<char>,
> {
    let s1 = if o.name.enabled {
        name_step_spec(stem, o.name.combobox_value, o.name.value@)
    } else {
        stem
    };
    let s2 = if o.case.enabled {
        case_step_spec(s1, o.case.combobox_value, o.case.from, o.case.to)
    } else {
        Some(s1)
    };
    match s2 {
        None => None,
        Some(s2) => {
            let s3 = if o.replace.enabled {
                replace_step_spec(
                    s2,
                    o.replace.match_with@,
                    o.replace.replace_with@,
                    o.replace.match_first,
                )
            } else {
                s2
            };
            let s4 = if o.remove.enabled {
                remove_step_spec(s3, o.remove.first, o.remove.last, o.remove.from, o.remove.to)
            } else {
                Some(s3)
            };
            match s4 {
                None => None,
                Some(s4) => {
                    let s5 = if o.add.enabled {
                        add_step_spec(s4, o.add.prefix@, o.add.insert@, o.add.at, o.add.suffix@)
                    } else {
                        Some(s4)
                    };
                    match s5 {
                        None => None,
                        Some(s5) => if o.numbering.enabled {
                            if o.numbering.start + count > u32::MAX {
                                None
                            } else {
                                numbering_step_spec(
                                    s5,
                                    o.numbering.combobox_value,
                                    o.numbering.at,
                                    number_text(
                                        (o.numbering.start + count - 1) as u32,
                                        o.numbering.pad,
                                    ),
                                )
                            }
                        } else {
                            Some(s5)
                        },
                    }
                },
            }
        },
    }
}

/// One file of the table, given its cut into stem and extension part:
/// its new name and the count of selected files so far.  A selected file
/// counts and gets a new stem; every file keeps its extension part.
/// `None` where the name could not be cut, the count overflows, or the
/// stem cannot be renamed.
pub open spec fn cut_step_spec(
    o: RenameOptions,
    cut: Option<(Seq<char>, Seq<char>)>,
    selected: bool,
    total: u32,
) -> Option<(Seq<char>, u32)> {
    match cut {
        None => None,
        Some((stem, ext)) => if selected {
            if total == u32::MAX {
                None
            } else {
                match rename_stem_spec(o, stem, (total + 1) as u32) {
                    None => None,
                    Some(new_stem) => Some((new_stem + ext, (total + 1) as u32)),
                }
            }
        } else {
            Some((stem + ext, total))
        },
    }
}

/// One file of the table: its name cut as its extension says, then
/// renamed as `cut_step_spec` says.
pub open spec fn file_step_spec(o: RenameOptions, name: Seq<char>, selected: bool, total: u32) -> Option<
    (Seq<char>, u32),
> {
    cut_step_spec(o, split_name_spec(name, path_extension(name)), selected, total)
}

/// The new names of the first `n` files and the number of them selected.
pub open spec fn renames_upto(o: RenameOptions, files: Seq<Seq<char>>, sel: Seq<bool>, n: nat) -> Option<
    (Seq<Seq<char>>, u32),
>
    decreases n,
{
    if n == 0 {
        Some((Seq::empty(), 0))
    } else {
        match renames_upto(o, files, sel, (n - 1) as nat) {
            None => None,
            Some((names, total)) => match file_step_spec(
                o,
                files[n - 1],
                sel[n - 1],
                total,
            ) {
                None => None,
                Some((name, t)) => Some((names.push(name), t)),
            },
        }
    }
}

/// The new names of all files of the table and the number selected.
pub open spec fn renames_spec(o: RenameOptions, files: Seq<Seq<char>>, sel: Seq<bool>) -> Option<
    (Seq<Seq<char>>, u32),
> {
    renames_upto(o, files, sel, files.len())
}

impl RenameOptions {
    /// The new stem of the `count`-th selected file (counting from 1).
    pub fn rename_stem(&self, stem: &Vec<char>, count: u32) -> (r: Option<Vec<char>>)
        requires
            count >= 1,
        ensures
            r.deep_view() == rename_stem_spec(*self, stem@, count),
    {
        let s1 = if self.name.enabled {
            let value = chars_of(self.name.value.as_str());
            name_step(stem, self.name.combobox_value, &value)
        } else {
            concat_chars(stem, &Vec::new())
        };
        assert(stem@ + Seq::<char>::empty() =~= stem@);
        let s2 = if self.case.enabled {
            match case_step(&s1, self.case.combobox_value, self.case.from, self.case.to) {
                Some(t) => {
                    proof {
                        lemma_chars_deep_view(t);
                    }
                    t
                },
                None => return None,
            }
        } else {
            s1
        };
        let s3 = if self.replace.enabled {
            let p = chars_of(self.replace.match_with.as_str());
            let w = chars_of(self.replace.replace_with.as_str());
            replace_step(&s2, &p, &w, self.replace.match_first)
        } else {
            s2
        };
        let s4 = if self.remove.enabled {
            match remove_step(
                &s3,
                self.remove.first,
                self.remove.last,
                self.remove.from,
                self.remove.to,
            ) {
                Some(t) => {
                    proof {
                        lemma_chars_deep_view(t);
                    }
                    t
                },
                None => return None,
            }
        } else {
            s3
        };
        let s5 = if self.add.enabled {
            let prefix = chars_of(self.add.prefix.as_str());
            let insert = chars_of(self.add.insert.as_str());
            let suffix = chars_of(self.add.suffix.as_str());
            match add_step(&s4, &prefix, &insert, self.add.at, &suffix) {
                Some(t) => {
                    proof {
                        lemma_chars_deep_view(t);
                    }
                    t
                },
                None => return None,
            }
        } else {
            s4
        };
        if self.numbering.enabled {
            if count > u32::MAX - self.numbering.start {
                return None;
            }
            let number = number_text_exec(
                self.numbering.start + count - 1,
                self.numbering.pad,
            );
            let r = numbering_step(&s5, self.numbering.combobox_value, self.numbering.at, &number);
            proof {
                if r is Some {
                    lemma_chars_deep_view(r->0);
                }
            }
            r
        } else {
            proof {
                lemma_chars_deep_view(s5);
            }
            Some(s5)
        }
    }

    /// The new name of one file, given its cut into stem and extension
    /// part, and the new count.
    pub fn rename_cut(&self, cut: &Option<(Vec<char>, Vec<char>)>, selected: bool, total: u32) -> (r:
        Option<(String, u32)>)
        ensures
            match r {
                Some((n, t)) => cut_step_spec(*self, cut.deep_view(), selected, total) == Some((n@, t)),
                None => cut_step_spec(*self, cut.deep_view(), selected, total) is None,
            },
    {
        match cut {
            None => None,
            Some((stem, tail)) => {
                proof {
                    lemma_chars_deep_view(*stem);
                    lemma_chars_deep_view(*tail);
                }
                if selected {
                    if total == u32::MAX {
                        return None;
                    }
                    match self.rename_stem(stem, total + 1) {
                        None => None,
                        Some(new_stem) => {
                            proof {
                                lemma_chars_deep_view(new_stem);
                            }
                            let full = concat_chars(&new_stem, tail);
                            Some((string_of(&full), total + 1))
                        },
                    }
                } else {
                    let full = concat_chars(stem, tail);
                    Some((string_of(&full), total))
                }
            },
        }
    }

    /// The new name of one file of the table, and the new count.
    pub fn rename_file(&self, name: &String, selected: bool, total: u32) -> (r: Option<
        (String, u32),
    >)
        ensures
            match r {
                Some((n, t)) => file_step_spec(*self, name@, selected, total) == Some((n@, t)),
                None => file_step_spec(*self, name@, selected, total) is None,
            },
            is_portable_file_name(name@) ==> extension_text(path_extension(name@))
                == extension_text(documented_extension(name@)),
    {
        let cut = split_file_name(name.as_str());
        self.rename_cut(&cut, selected, total)
    }

    /// The new names of the files of the table and the number selected:
    /// every name is cut first, then the stems are renamed in table order.
    pub fn renames(&self, files: &Vec<String>, selected: &Vec<bool>) -> (r: Option<
        (Vec<String>, u32),
    >)
        requires
            selected@.len() >= files@.len(),
        ensures
            match r {
                Some((v, t)) => renames_spec(*self, files.deep_view(), selected@) == Some(
                    (v.deep_view(), t),
                ),
                None => renames_spec(*self, files.deep_view(), selected@) is None,
            },
            forall|i: int|
                0 <= i < files@.len() && is_portable_file_name(#[trigger] files@[i]@)
                    ==> extension_text(path_extension(files@[i]@)) == extension_text(
                    documented_extension(files@[i]@),
                ),
    {
        let ghost fv = files.deep_view();
        let cuts = cut_names(files);
        let mut names: Vec<String> = Vec::new();
        let mut total: u32 = 0;
        let mut i: usize = 0;
        while i < files.len()
            invariant
                fv == files.deep_view(),
                selected@.len() >= files@.len(),
                cuts@.len() == files@.len(),
                forall|j: int|
                    0 <= j < files@.len() ==> (#[trigger] cuts@[j]).deep_view() == split_name_spec(
                        files@[j]@,
                        path_extension(files@[j]@),
                    ),
                forall|j: int|
                    0 <= j < files@.len() && is_portable_file_name(#[trigger] files@[j]@)
                        ==> extension_text(path_extension(files@[j]@)) == extension_text(
                        documented_extension(files@[j]@),
                    ),
                i <= files.len(),
                renames_upto(*self, fv, selected@, i as nat) == Some((names.deep_view(), total)),
            decreases files.len() - i,
        {
            assert(fv[i as int] == files@[i as int]@);
            assert(cuts@[i as int].deep_view() == split_name_spec(
                files@[i as int]@,
                path_extension(files@[i as int]@),
            ));
            match self.rename_cut(&cuts[i], selected[i], total) {
                None => {
                    proof {
                        assert(renames_upto(*self, fv, selected@, (i + 1) as nat) is None);
                        lemma_renames_none_stays(*self, fv, selected@, (i + 1) as nat, files@.len());
                    }
                    return None;
                },
                Some((n, t)) => {
                    let ghost old_names = names.deep_view();
                    names.push(n);
                    total = t;
                    assert(names.deep_view() =~= old_names.push(n@));
                },
            }
            i = i + 1;
        }
        Some((names, total))
    }
}

/// Every name of the table cut into stem and extension part, as its
/// extension says.
pub fn cut_names(files: &Vec<String>) -> (cuts: Vec<Option<(Vec<char>, Vec<char>)>>)
    ensures
        cuts@.len() == files@.len(),
        forall|j: int|
            0 <= j < files@.len() ==> (#[trigger] cuts@[j]).deep_view() == split_name_spec(
                files@[j]@,
                path_extension(files@[j]@),
            ),
        forall|j: int|
            0 <= j < files@.len() && is_portable_file_name(#[trigger] files@[j]@)
                ==> extension_text(path_extension(files@[j]@)) == extension_text(
                documented_extension(files@[j]@),
            ),
{
    let mut cuts: Vec<Option<(Vec<char>, Vec<char>)>> = Vec::new();
    let mut i: usize = 0;
    while i < files.len()
        invariant
            i <= files.len(),
            cuts@.len() == i,
            forall|j: int|
                0 <= j < i ==> (#[trigger] cuts@[j]).deep_view() == split_name_spec(
                    files@[j]@,
                    path_extension(files@[j]@),
                ),
            forall|j: int|
                0 <= j < i && is_portable_file_name(#[trigger] files@[j]@)
                    ==> extension_text(path_extension(files@[j]@)) == extension_text(
                    documented_extension(files@[j]@),
                ),
        decreases files.len() - i,
    {
        let cut = split_file_name(files[i].as_str());
        cuts.push(cut);
        i = i + 1;
    }
    cuts
}

/// Once a file cannot be renamed, the table cannot be renamed.
pub proof fn lemma_renames_none_stays(
    o: RenameOptions,
    files: Seq<Seq<char>>,
    sel: Seq<bool>,
    m: nat,
    n: nat,
)
    requires
        m <= n,
        renames_upto(o, files, sel, m) is None,
    ensures
        renames_upto(o, files, sel, n) is None,
    decreases n - m,
{
    if m < n {
        lemma_renames_none_stays(o, files, sel, m, (n - 1) as nat);
    }
}


/// The extension part that a file keeps.
pub open spec fn kept_extension(name: Seq<char>) -> Seq<char> {
    split_name_spec(name, path_extension(name)).unwrap().1
}

/// The extension part of a file name as documented: its last dot and the
/// extension after it, or nothing where it has no (or an empty)
/// extension.
pub open spec fn extension_part(name: Seq<char>) -> Seq<char> {
    let e = extension_text(documented_extension(name));
    if e.len() >= 1 {
        seq!['.'] + e
    } else {
        Seq::empty()
    }
}

/// `s` ends with `t`.
pub open spec fn has_suffix(s: Seq<char>, t: Seq<char>) -> bool {
    s.len() >= t.len() && s.skip(s.len() - t.len()) == t
}

/// Where a name's extension reads as documented (as for every portable
/// file name), the name can be cut, and the part it keeps is its last dot
/// and extension, or nothing where it has none.
pub proof fn lemma_kept_extension_documented(name: Seq<char>)
    ensures
        extension_text(path_extension(name)) == extension_text(documented_extension(name))
            ==> split_name_spec(name, path_extension(name)) is Some && kept_extension(name)
            == extension_part(name),
{
    if extension_text(path_extension(name)) == extension_text(documented_extension(name)) {
        let e = extension_text(documented_extension(name));
        if e.len() >= 1 {
            lemma_documented_split(name);
            assert(split_name_spec(name, path_extension(name)) == split_name_spec(
                name,
                documented_extension(name),
            ));
        }
    }
}

/// What renaming the first `n` files gives: a name for each; unselected
/// files keep their names; every name ends with the file's extension
/// part; and the count is the number of selected files among them, so
/// that the `k`-th selected file is numbered `start + k - 1`.
pub proof fn lemma_renames_upto(o: RenameOptions, files: Seq<Seq<char>>, sel: Seq<bool>, n: nat)
    requires
        n <= files.len(),
        sel.len() >= files.len(),
        renames_upto(o, files, sel, n) is Some,
    ensures
        ({
            let (names, total) = renames_upto(o, files, sel, n).unwrap();
            &&& names.len() == n
            &&& total == selected_indices(sel.take(n as int)).len()
            &&& forall|i: int| 0 <= i < n && !sel[i] ==> #[trigger] names[i] == files[i]
            &&& forall|i: int|
                0 <= i < n ==> (#[trigger] names[i]).len() >= kept_extension(files[i]).len()
                    && names[i].skip(names[i].len() - kept_extension(files[i]).len())
                    == kept_extension(files[i])
        }),
    decreases n,
{
    if n > 0 {
        let m = (n - 1) as nat;
        lemma_renames_upto(o, files, sel, m);
        lemma_selected_indices_step(sel, m as int);
        let name = files[m as int];
        lemma_split_name_rejoins(name, path_extension(name));
        let (stem, ext) = split_name_spec(name, path_extension(name)).unwrap();
        let (names, total) = renames_upto(o, files, sel, n).unwrap();
        let new_name = names[m as int];
        if sel[m as int] {
            let new_stem = rename_stem_spec(o, stem, (renames_upto(o, files, sel, m).unwrap().1 + 1) as u32).unwrap();
            assert(new_name == new_stem + ext);
            assert(new_name.skip(new_name.len() - ext.len()) =~= ext);
        } else {
            assert(new_name == stem + ext);
            assert(new_name.skip(new_name.len() - ext.len()) =~= ext);
        }
    }
}

/// Renaming the table leaves unselected files as they are, gives every
/// file a name ending with the extension part it keeps (for a name whose
/// extension reads as documented: its last dot and extension, or
/// nothing), and counts the selected files.
pub proof fn lemma_renames(o: RenameOptions, files: Seq<Seq<char>>, sel: Seq<bool>)
    requires
        sel.len() >= files.len(),
        renames_spec(o, files, sel) is Some,
    ensures
        ({
            let (names, total) = renames_spec(o, files, sel).unwrap();
            &&& names.len() == files.len()
            &&& total == selected_indices(sel.take(files.len() as int)).len()
            &&& forall|i: int| 0 <= i < files.len() && !sel[i] ==> #[trigger] names[i] == files[i]
            &&& forall|i: int|
                0 <= i < files.len() ==> has_suffix(#[trigger] names[i], kept_extension(files[i]))
            &&& forall|i: int|
                0 <= i < files.len() && extension_text(path_extension(files[i])) == extension_text(
                    documented_extension(files[i]),
                ) ==> has_suffix(#[trigger] names[i], extension_part(files[i]))
        }),
{
    lemma_renames_upto(o, files, sel, files.len());
    let names = renames_spec(o, files, sel).unwrap().0;
    assert forall|i: int|
        0 <= i < files.len() && extension_text(path_extension(files[i])) == extension_text(
            documented_extension(files[i]),
        ) implies has_suffix(#[trigger] names[i], extension_part(files[i])) by {
        lemma_kept_extension_documented(files[i]);
    }
}


// ---------------------------------------------------------------- order of the steps

/// Remove runs before add: with only those two steps enabled, the new stem
/// is the add step applied to what the remove step left.
pub proof fn lemma_remove_before_add(o: RenameOptions, s: Seq<char>, count: u32)
    requires
        !o.name.enabled,
        !o.case.enabled,
        !o.replace.enabled,
        o.remove.enabled,
        o.add.enabled,
        !o.numbering.enabled,
    ensures
        rename_stem_spec(o, s, count) == match remove_step_spec(
            s,
            o.remove.first,
            o.remove.last,
            o.remove.from,
            o.remove.to,
        ) {
            Some(t) => add_step_spec(t, o.add.prefix@, o.add.insert@, o.add.at, o.add.suffix@),
            None => None,
        },
{
}

/// Removing the first `n` characters of an ASCII stem and adding a prefix
/// `P` gives `P` followed by the stem without its first `n` characters:
/// the new stem always starts with the prefix.
pub proof fn lemma_remove_first_then_prefix(o: RenameOptions, s: Seq<char>, count: u32)
    requires
        !o.name.enabled,
        !o.case.enabled,
        !o.replace.enabled,
        o.remove.enabled,
        o.add.enabled,
        !o.numbering.enabled,
        o.remove.last == 0,
        o.remove.from == 0,
        o.remove.to == 0,
        o.add.insert@.len() == 0,
        o.add.suffix@.len() == 0,
        is_ascii(s),
        s.len() <= u32::MAX,
        o.remove.first <= s.len(),
    ensures
        rename_stem_spec(o, s, count) == Some(o.add.prefix@ + s.skip(o.remove.first as int)),
{
    let n = o.remove.first;
    lemma_remove_step_ascii(s, n, 0, 0, 0);
    let mid = s.subrange(n as int, s.len() as int);
    let t = s.skip(n as int);
    assert(mid.take(0) + mid.skip(0) =~= t);
    assert(o.add.insert@ =~= Seq::<char>::empty());
    assert(o.add.suffix@ =~= Seq::<char>::empty());
    lemma_add_step_ends(t, o.add.prefix@, o.add.at, Seq::empty());
    assert(o.add.prefix@ + t + Seq::<char>::empty() =~= o.add.prefix@ + t);
}

/// The name step runs before the case step: a stem replaced by a value
/// and then converted as a whole gives the converted value.
pub proof fn lemma_name_before_case(o: RenameOptions, s: Seq<char>, count: u32)
    requires
        o.name.enabled,
        o.name.combobox_value == NamingMode::Remove,
        o.case.enabled,
        o.case.to == 0,
        !o.replace.enabled,
        !o.remove.enabled,
        !o.add.enabled,
        !o.numbering.enabled,
    ensures
        o.case.combobox_value == CaseMode::Upper ==> rename_stem_spec(o, s, count) == Some(
            uppercase(o.name.value@),
        ),
        o.case.combobox_value == CaseMode::Lower ==> rename_stem_spec(o, s, count) == Some(
            lowercase(o.name.value@),
        ),
{
}

/// The add step runs before the numbering step: with a prefix added and
/// the number put in front, the number comes first, then the prefix.
pub proof fn lemma_add_before_numbering(o: RenameOptions, s: Seq<char>, count: u32)
    requires
        !o.name.enabled,
        !o.case.enabled,
        !o.replace.enabled,
        !o.remove.enabled,
        o.add.enabled,
        o.add.insert@.len() == 0,
        o.add.suffix@.len() == 0,
        o.numbering.enabled,
        o.numbering.combobox_value == NumberingMode::Prefix,
        1 <= count,
        o.numbering.start + count <= u32::MAX,
    ensures
        rename_stem_spec(o, s, count) == Some(
            number_text((o.numbering.start + count - 1) as u32, o.numbering.pad) + o.add.prefix@
                + s,
        ),
{
    assert(o.add.insert@ =~= Seq::<char>::empty());
    assert(o.add.suffix@ =~= Seq::<char>::empty());
    lemma_add_step_ends(s, o.add.prefix@, o.add.at, Seq::empty());
    assert(o.add.prefix@ + s + Seq::<char>::empty() =~= o.add.prefix@ + s);
    let num = number_text((o.numbering.start + count - 1) as u32, o.numbering.pad);
    assert(num + (o.add.prefix@ + s) =~= num + o.add.prefix@ + s);
}

} // verus!
