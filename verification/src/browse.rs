//! The folder browser: the start path of each platform, reading a folder
//! into the file table, and moving between folders.

use vstd::prelude::*;
use crate::folder::{Folder, FolderItem};
use crate::gui::{with_dialog, Browser, BulkGui, Dialog, FileTable};
use crate::text::{byte_len, byte_len_exact, chars_of, lemma_byte_len_zero, string_of};

verus! {

/// The kind of system the window runs on.
#[derive(Clone, Copy, Debug, PartialEq, Eq, Structural)]
pub enum Platform {
    Windows,
    Unix,
    Other,
}

// ---------------------------------------------------------------- start

/// The state after the first frame: on Windows and Unix the system name
/// is set and the browser starts at the root (`C:/` or `/`).
pub open spec fn after_first_frame(g: BulkGui, p: Platform) -> bool {
    &&& !g.first_cycle
    &&& match p {
        Platform::Windows => {
            &&& g.os_string@ == "Windows"@
            &&& g.default_path@ == "C:/"@
            &&& g.browser.path_current@ == "C:/"@
            &&& g.browser.path_line@ == "C:/"@
        },
        Platform::Unix => {
            &&& g.os_string@ == "Unix"@
            &&& g.default_path@ == "/"@
            &&& g.browser.path_current@ == "/"@
            &&& g.browser.path_line@ == "/"@
        },
        Platform::Other => true,
    }
}

impl BulkGui {
    /// On the first frame: sets the system name and the start folder.
    pub fn init_platform(&mut self, p: Platform)
        ensures
            old(self).first_cycle ==> after_first_frame(*final(self), p) && *final(self) == (
            BulkGui {
                first_cycle: false,
                os_string: final(self).os_string,
                default_path: final(self).default_path,
                browser: Browser {
                    path_current: final(self).browser.path_current,
                    path_line: final(self).browser.path_line,
                    ..old(self).browser
                },
                ..*old(self)
            }),
            !old(self).first_cycle ==> *final(self) == *old(self),
    {
        if self.first_cycle {
            match p {
                Platform::Windows => {
                    self.os_string = "Windows";
                    self.default_path = String::from_str("C:/");
                    self.browser.path_current = String::from_str("C:/");
                    self.browser.path_line = String::from_str("C:/");
                },
                Platform::Unix => {
                    self.os_string = "Unix";
                    self.default_path = String::from_str("/");
                    self.browser.path_current = String::from_str("/");
                    self.browser.path_line = String::from_str("/");
                },
                Platform::Other => {},
            }
            self.first_cycle = false;
        }
    }
}

// ---------------------------------------------------------------- reading a folder

/// The names of the items that are readable, or of all items when `all`.
pub open spec fn names_where(items: Seq<FolderItem>, all: bool) -> Seq<String>
    decreases items.len(),
{
    if items.len() == 0 {
        Seq::empty()
    } else if all || items.last().read_into {
        names_where(items.drop_last(), all).push(items.last().name)
    } else {
        names_where(items.drop_last(), all)
    }
}

/// `n` flags, all unset.
pub open spec fn all_unset(n: nat) -> Seq<bool> {
    Seq::new(n, |i: int| false)
}

/// The folder was read: the table lists its readable files, none
/// selected, each with its own name as the new name; the browser lists
/// its readable sub-folders (all of them when `show_all_items`).
pub open spec fn listing_applied(g: BulkGui, h: BulkGui, folder: Folder) -> bool {
    let files = names_where(folder.list_files@, false);
    &&& h.table.files@ == files
    &&& h.table.selected@ == all_unset(files.len())
    &&& h.table.renamed@ == files
    &&& h.browser.list_folders@ == names_where(folder.list_folders@, g.show_all_items)
    &&& h == BulkGui {
        update_all: false,
        table: FileTable {
            files: h.table.files,
            selected: h.table.selected,
            renamed: h.table.renamed,
            ..g.table
        },
        browser: Browser {
            folder: folder,
            list_folders: h.browser.list_folders,
            path_line: g.browser.path_current,
            ..g.browser
        },
        ..g
    }
}

/// The folder could not be read: the table and the browser list are
/// empty, the message is kept and the error dialog is shown.
pub open spec fn listing_failed(g: BulkGui, h: BulkGui, message: String) -> bool {
    let e = with_dialog(g, Dialog::Error, true);
    &&& h.table.files@.len() == 0
    &&& h.table.selected@.len() == 0
    &&& h.table.renamed@.len() == 0
    &&& h.browser.list_folders@.len() == 0
    &&& h.errors@ == g.errors@.push(message)
    &&& h == BulkGui {
        update_all: false,
        errors: h.errors,
        table: FileTable {
            files: h.table.files,
            selected: h.table.selected,
            renamed: h.table.renamed,
            ..e.table
        },
        browser: Browser {
            list_folders: h.browser.list_folders,
            path_line: g.browser.path_current,
            ..e.browser
        },
        ..e
    }
}

/// The names of the items that are readable, or of all items when `all`.
fn collect_names(items: &Vec<FolderItem>, all: bool) -> (r: Vec<String>)
    ensures
        r@ == names_where(items@, all),
{
    let mut r: Vec<String> = Vec::new();
    let mut i: usize = 0;
    while i < items.len()
        invariant
            i <= items.len(),
            r@ == names_where(items@.take(i as int), all),
        decreases items.len() - i,
    {
        assert(items@.take(i + 1).drop_last() =~= items@.take(i as int));
        if all || items[i].read_into {
            r.push(items[i].name.clone());
        }
        i = i + 1;
    }
    assert(items@.take(i as int) =~= items@);
    r
}

impl FileTable {
    /// Lists `files`, none selected, each renamed to itself.
    fn show_files(&mut self, files: Vec<String>)
        ensures
            final(self).files@ == files@,
            final(self).selected@ == all_unset(files@.len()),
            final(self).renamed@ == files@,
            *final(self) == (FileTable {
                files: final(self).files,
                selected: final(self).selected,
                renamed: final(self).renamed,
                ..*old(self)
            }),
    {
        let mut selected: Vec<bool> = Vec::new();
        let mut renamed: Vec<String> = Vec::new();
        let mut i: usize = 0;
        while i < files.len()
            invariant
                i <= files.len(),
                selected@ == all_unset(i as nat),
                renamed@ == files@.take(i as int),
            decreases files.len() - i,
        {
            selected.push(false);
            renamed.push(files[i].clone());
            i = i + 1;
            assert(selected@ =~= all_unset(i as nat));
            assert(renamed@ =~= files@.take(i as int));
        }
        assert(files@.take(i as int) =~= files@);
        self.selected = selected;
        self.renamed = renamed;
        self.files = files;
    }
}

impl BulkGui {
    /// Takes the result of reading the current folder (or the message of
    /// the error that stopped it) into the table and the browser.
    pub fn apply_listing(&mut self, listing: Result<Folder, String>)
        ensures
            match listing {
                Ok(folder) => listing_applied(*old(self), *final(self), folder),
                Err(message) => listing_failed(*old(self), *final(self), message),
            },
    {
        match listing {
            Ok(folder) => {
                let files = collect_names(&folder.list_files, false);
                let folders = collect_names(&folder.list_folders, self.show_all_items);
                self.table.show_files(files);
                self.browser.list_folders = folders;
                self.browser.folder = folder;
            },
            Err(message) => {
                self.table.show_files(Vec::new());
                self.browser.list_folders = Vec::new();
                self.errors.push(message);
                self.window_error_open();
            },
        }
        self.update_all = false;
        self.browser.path_line = self.browser.path_current.clone();
    }
}


// ---------------------------------------------------------------- moving between folders

/// The non-empty pieces of `p` between `'/'`s, given the piece `cur`
/// already begun.
pub open spec fn segments_from(p: Seq<char>, cur: Seq<char>) -> Seq<Seq<char>>
    decreases p.len(),
{
    if p.len() == 0 {
        if cur.len() > 0 {
            seq![cur]
        } else {
            Seq::empty()
        }
    } else if p[0] == '/' {
        (if cur.len() > 0 {
            seq![cur]
        } else {
            Seq::empty()
        }) + segments_from(p.skip(1), Seq::empty())
    } else {
        segments_from(p.skip(1), cur.push(p[0]))
    }
}

/// The non-empty pieces of `p` between `'/'`s.
pub open spec fn path_segments(p: Seq<char>) -> Seq<Seq<char>> {
    segments_from(p, Seq::empty())
}

/// The pieces joined with `'/'` between them.
pub open spec fn join_slash(segs: Seq<Seq<char>>) -> Seq<char>
    decreases segs.len(),
{
    if segs.len() == 0 {
        Seq::empty()
    } else if segs.len() == 1 {
        segs[0]
    } else {
        join_slash(segs.drop_last()) + seq!['/'] + segs.last()
    }
}

/// The folder above `p`: its pieces without the last one, joined again.
/// On Windows the result ends with `'/'`, or is `C:/` when at most one
/// byte is left; on Unix it starts and ends with `'/'`, or is `/`.
pub open spec fn parent_path(p: Seq<char>, windows: bool) -> Seq<char> {
    let segs = path_segments(p);
    let rest = if segs.len() > 0 {
        segs.drop_last()
    } else {
        segs
    };
    let joined = join_slash(rest);
    if windows {
        if byte_len(joined) > 1 {
            joined + seq!['/']
        } else {
            "C:/"@
        }
    } else {
        if byte_len(joined) > 0 {
            seq!['/'] + joined + seq!['/']
        } else {
            "/"@
        }
    }
}

/// The non-empty pieces of `p` between `'/'`s.
pub fn path_segments_exec(p: &Vec<char>) -> (r: Vec<Vec<char>>)
    ensures
        r.deep_view() == path_segments(p@),
{
    let mut r: Vec<Vec<char>> = Vec::new();
    let ghost mut segs: Seq<Seq<char>> = Seq::empty();
    let mut cur: Vec<char> = Vec::new();
    let mut i: usize = 0;
    assert(p@.skip(0) =~= p@);
    while i < p.len()
        invariant
            i <= p.len(),
            r@.len() == segs.len(),
            forall|k: int| 0 <= k < segs.len() ==> #[trigger] r@[k]@ == segs[k],
            segs + segments_from(p@.skip(i as int), cur@) == path_segments(p@),
        decreases p.len() - i,
    {
        assert(p@.skip(i as int).skip(1) =~= p@.skip(i + 1));
        assert(p@.skip(i as int)[0] == p@[i as int]);
        if p[i] == '/' {
            if cur.len() > 0 {
                let piece = cur;
                proof {
                    segs = segs.push(piece@);
                }
                r.push(piece);
                cur = Vec::new();
                assert(segs + segments_from(p@.skip(i + 1), cur@) =~= path_segments(p@));
            } else {
                assert(cur@ =~= Seq::<char>::empty());
                assert(Seq::<Seq<char>>::empty() + segments_from(p@.skip(i + 1), cur@)
                    =~= segments_from(p@.skip(i + 1), cur@));
                assert(segs + segments_from(p@.skip(i + 1), cur@) =~= path_segments(p@));
            }
        } else {
            cur.push(p[i]);
        }
        i = i + 1;
    }
    if cur.len() > 0 {
        proof {
            segs = segs.push(cur@);
        }
        r.push(cur);
    }
    assert(segs =~= path_segments(p@));
    assert forall|k: int| 0 <= k < r@.len() implies #[trigger] r.deep_view()[k] == segs[k] by {
        crate::text::lemma_chars_deep_view(r@[k]);
    }
    assert(r.deep_view() =~= segs);
    r
}

/// The pieces joined with `'/'` between them.
pub fn join_slash_exec(segs: &Vec<Vec<char>>, n: usize) -> (r: Vec<char>)
    requires
        n <= segs.len(),
    ensures
        r@ == join_slash(segs.deep_view().take(n as int)),
{
    let mut r: Vec<char> = Vec::new();
    let mut i: usize = 0;
    while i < n
        invariant
            n <= segs.len(),
            i <= n,
            r@ == join_slash(segs.deep_view().take(i as int)),
        decreases n - i,
    {
        let ghost ds = segs.deep_view();
        assert(ds.take(i + 1).drop_last() =~= ds.take(i as int));
        assert(ds[i as int] == segs@[i as int]@);
        if i > 0 {
            r.push('/');
        }
        let piece = &segs[i];
        let mut j: usize = 0;
        let ghost start = r@;
        while j < piece.len()
            invariant
                j <= piece.len(),
                r@ == start + piece@.take(j as int),
            decreases piece.len() - j,
        {
            r.push(piece[j]);
            j = j + 1;
            assert(r@ =~= start + piece@.take(j as int));
        }
        assert(piece@.take(j as int) =~= piece@);
        i = i + 1;
        if i == 1 {
            assert(r@ =~= join_slash(ds.take(i as int)));
        } else {
            assert(r@ =~= join_slash(ds.take(i as int)));
        }
    }
    r
}

/// The folder above `p`.
pub fn parent_path_exec(p: &Vec<char>, windows: bool) -> (r: Vec<char>)
    ensures
        r@ == parent_path(p@, windows),
{
    let segs = path_segments_exec(p);
    let keep = if segs.len() > 0 {
        segs.len() - 1
    } else {
        0
    };
    let joined = join_slash_exec(&segs, keep);
    proof {
        let ds = segs.deep_view();
        if ds.len() > 0 {
            assert(ds.take(keep as int) =~= ds.drop_last());
        } else {
            assert(ds.take(0) =~= ds);
        }
    }
    let bytes = byte_len_exact(&joined);
    if windows {
        if bytes > 1 {
            let mut r = joined;
            r.push('/');
            r
        } else {
            let r = chars_of("C:/");
            r
        }
    } else {
        if bytes > 0 {
            let mut r: Vec<char> = Vec::new();
            r.push('/');
            let mut k: usize = 0;
            while k < joined.len()
                invariant
                    k <= joined.len(),
                    r@ == seq!['/'] + joined@.take(k as int),
                decreases joined.len() - k,
            {
                r.push(joined[k]);
                k = k + 1;
                assert(r@ =~= seq!['/'] + joined@.take(k as int));
            }
            assert(joined@.take(k as int) =~= joined@);
            r.push('/');
            r
        } else {
            chars_of("/")
        }
    }
}

/// The browser moved to folder `path`: the folder it left is remembered
/// and the folder is to be read.
pub open spec fn moved_to(g: BulkGui, h: BulkGui, path: Seq<char>) -> bool {
    &&& h.browser.path_current@ == path
    &&& h == BulkGui {
        update_all: true,
        browser: Browser {
            path_last: g.browser.path_current,
            path_current: h.browser.path_current,
            ..g.browser
        },
        ..g
    }
}

/// `s` ends with `'/'`.
pub open spec fn ends_with_slash(s: Seq<char>) -> bool {
    s.len() > 0 && s.last() == '/'
}

impl BulkGui {
    /// Moves the browser up one folder (on Windows and Unix).
    pub fn browse_up(&mut self, p: Platform)
        ensures
            p == Platform::Windows ==> moved_to(
                *old(self),
                *final(self),
                parent_path(old(self).browser.path_current@, true),
            ),
            p == Platform::Unix ==> moved_to(
                *old(self),
                *final(self),
                parent_path(old(self).browser.path_current@, false),
            ),
            p == Platform::Other ==> *final(self) == *old(self),
    {
        if p == Platform::Other {
            return ;
        }
        let current = chars_of(self.browser.path_current.as_str());
        let parent = parent_path_exec(&current, p == Platform::Windows);
        let path = string_of(&parent);
        self.browser.path_last = self.browser.path_current.clone();
        self.browser.path_current = path;
        self.update_all = true;
    }

    /// Moves the browser into the sub-folder `name` of the current folder.
    pub fn enter_folder(&mut self, name: &String)
        ensures
            moved_to(*old(self), *final(self), old(self).browser.path_current@ + name@ + seq!['/']),
    {
        let mut path = self.browser.path_current.clone();
        path.append(name.as_str());
        path.append("/");
        proof {
            reveal_strlit("/");
            assert("/"@ =~= seq!['/']);
        }
        self.browser.path_last = self.browser.path_current.clone();
        self.browser.path_current = path;
        self.update_all = true;
    }

    /// Moves the browser back to the start folder.
    pub fn reset_browser_path(&mut self)
        ensures
            *final(self) == (BulkGui {
                update_all: true,
                browser: Browser { path_current: old(self).default_path, ..old(self).browser },
                ..*old(self)
            }),
    {
        self.browser.path_current = self.default_path.clone();
        self.update_all = true;
    }

    /// Takes the typed path, when it differs from the current folder: a
    /// missing final `'/'` is added and the browser moves there.
    pub fn commit_path_line(&mut self)
        ensures
            old(self).browser.path_line@ != old(self).browser.path_current@ ==> {
                &&& line_committed(old(self).browser, final(self).browser)
                &&& *final(self) == (BulkGui {
                    update_all: true,
                    browser: final(self).browser,
                    ..*old(self)
                })
            },
            old(self).browser.path_line@ == old(self).browser.path_current@ ==> *final(self)
                == *old(self),
    {
        if self.browser.commit_line() {
            self.update_all = true;
        }
    }

    /// The up button works unless the browser is at the start folder.
    pub fn refresh_up_button(&mut self)
        ensures
            final(self).controls.browser_up_enabled == (old(self).browser.path_current@
                != old(self).default_path@),
            *final(self) == (BulkGui {
                controls: crate::gui::Controls {
                    browser_up_enabled: final(self).controls.browser_up_enabled,
                    ..old(self).controls
                },
                ..*old(self)
            }),
    {
        self.controls.browser_up_enabled = self.browser.path_current != self.default_path;
    }
}


/// The typed path `b.path_line`, with a final `'/'` added where missing,
/// became the current folder, and the folder left is remembered.
pub open spec fn line_committed(b: Browser, c: Browser) -> bool {
    let line = if ends_with_slash(b.path_line@) {
        b.path_line@
    } else {
        b.path_line@.push('/')
    };
    &&& c.path_line@ == line
    &&& c.path_current@ == line
    &&& c == Browser {
        path_last: b.path_current,
        path_current: c.path_current,
        path_line: c.path_line,
        ..b
    }
}

impl Browser {
    /// Moves to the typed path when it differs from the current folder;
    /// tells whether it did.
    pub fn commit_line(&mut self) -> (moved: bool)
        ensures
            moved == (old(self).path_line@ != old(self).path_current@),
            moved ==> line_committed(*old(self), *final(self)),
            !moved ==> *final(self) == *old(self),
    {
        if self.path_line != self.path_current {
            let line = chars_of(self.path_line.as_str());
            let ghost before = self.path_line@;
            if !(line.len() > 0 && line[line.len() - 1] == '/') {
                self.path_line.append("/");
                proof {
                    reveal_strlit("/");
                    assert("/"@ =~= seq!['/']);
                    assert(self.path_line@ =~= before.push('/'));
                }
            }
            self.path_last = self.path_current.clone();
            self.path_current = self.path_line.clone();
            true
        } else {
            false
        }
    }
}


// ---------------------------------------------------------------- laws of moving

/// A piece of a path: not empty, no `'/'`.
pub open spec fn is_path_piece(w: Seq<char>) -> bool {
    w.len() > 0 && !w.contains('/')
}

/// The folder path made of the pieces: `/a/b/`, or `/` for none.
pub open spec fn folder_path(segs: Seq<Seq<char>>) -> Seq<char> {
    if segs.len() == 0 {
        seq!['/']
    } else {
        seq!['/'] + join_slash(segs) + seq!['/']
    }
}

proof fn lemma_segments_piece(w: Seq<char>, rest: Seq<char>, cur: Seq<char>)
    requires
        !w.contains('/'),
    ensures
        segments_from(w + rest, cur) == segments_from(rest, cur + w),
    decreases w.len(),
{
    if w.len() == 0 {
        assert(w + rest =~= rest);
        assert(cur + w =~= cur);
    } else {
        assert((w + rest)[0] == w[0]);
        assert((w + rest).skip(1) =~= w.skip(1) + rest);
        assert(!w.skip(1).contains('/')) by {
            if w.skip(1).contains('/') {
                let k = choose|k: int| 0 <= k < w.skip(1).len() && w.skip(1)[k] == '/';
                assert(w[k + 1] == '/');
            }
        }
        assert(w[0] != '/') by {
            if w[0] == '/' {
                assert(w.contains('/'));
            }
        }
        lemma_segments_piece(w.skip(1), rest, cur.push(w[0]));
        assert(cur.push(w[0]) + w.skip(1) =~= cur + w);
    }
}

proof fn lemma_segments_slash(rest: Seq<char>, cur: Seq<char>)
    ensures
        segments_from(seq!['/'] + rest, cur) == (if cur.len() > 0 {
            seq![cur]
        } else {
            Seq::<Seq<char>>::empty()
        }) + segments_from(rest, Seq::empty()),
{
    assert((seq!['/'] + rest)[0] == '/');
    assert((seq!['/'] + rest).skip(1) =~= rest);
}

proof fn lemma_segments_join(segs: Seq<Seq<char>>, rest: Seq<char>)
    requires
        segs.len() > 0,
        forall|k: int| 0 <= k < segs.len() ==> is_path_piece(#[trigger] segs[k]),
    ensures
        segments_from(join_slash(segs) + seq!['/'] + rest, Seq::empty()) == segs + segments_from(
            rest,
            Seq::empty(),
        ),
    decreases segs.len(),
{
    let last = segs.last();
    assert(is_path_piece(segs[segs.len() - 1]));
    lemma_segments_piece(last, seq!['/'] + rest, Seq::empty());
    lemma_segments_slash(rest, Seq::<char>::empty() + last);
    assert(Seq::<char>::empty() + last =~= last);
    if segs.len() == 1 {
        assert(join_slash(segs) + seq!['/'] + rest =~= last + (seq!['/'] + rest));
        assert(segs =~= seq![last]);
    } else {
        let init = segs.drop_last();
        assert forall|k: int| 0 <= k < init.len() implies is_path_piece(#[trigger] init[k]) by {
            assert(init[k] == segs[k]);
        }
        assert(join_slash(segs) + seq!['/'] + rest =~= join_slash(init) + seq!['/'] + (last + (
        seq!['/'] + rest)));
        lemma_segments_join(init, last + (seq!['/'] + rest));
        assert(segs =~= init + seq![last]);
    }
}

proof fn lemma_join_nonempty(segs: Seq<Seq<char>>)
    requires
        segs.len() > 0,
        forall|k: int| 0 <= k < segs.len() ==> is_path_piece(#[trigger] segs[k]),
    ensures
        join_slash(segs).len() > 0,
    decreases segs.len(),
{
    assert(is_path_piece(segs[segs.len() - 1]));
    assert(is_path_piece(segs[0]));
}

/// The pieces of a folder path are the pieces it was made of.
pub proof fn lemma_folder_path_segments(segs: Seq<Seq<char>>)
    requires
        forall|k: int| 0 <= k < segs.len() ==> is_path_piece(#[trigger] segs[k]),
    ensures
        path_segments(folder_path(segs)) == segs,
{
    let e = Seq::<char>::empty();
    if segs.len() == 0 {
        assert(folder_path(segs) =~= seq!['/'] + e);
        lemma_segments_slash(e, e);
        assert(segments_from(e, e) =~= Seq::<Seq<char>>::empty());
        assert(Seq::<Seq<char>>::empty() + Seq::<Seq<char>>::empty() =~= segs);
    } else {
        assert(folder_path(segs) =~= seq!['/'] + (join_slash(segs) + seq!['/'] + e));
        lemma_segments_slash(join_slash(segs) + seq!['/'] + e, e);
        lemma_segments_join(segs, e);
        assert(segments_from(e, e) =~= Seq::<Seq<char>>::empty());
        assert(Seq::<Seq<char>>::empty() + (segs + Seq::<Seq<char>>::empty()) =~= segs);
    }
}

/// Entering a sub-folder and going up again (on Unix) comes back to the
/// folder.
pub proof fn lemma_enter_then_up(segs: Seq<Seq<char>>, name: Seq<char>)
    requires
        forall|k: int| 0 <= k < segs.len() ==> is_path_piece(#[trigger] segs[k]),
        is_path_piece(name),
    ensures
        parent_path(folder_path(segs) + name + seq!['/'], false) == folder_path(segs),
{
    let longer = segs.push(name);
    assert forall|k: int| 0 <= k < longer.len() implies is_path_piece(#[trigger] longer[k]) by {
        if k < segs.len() {
            assert(longer[k] == segs[k]);
        }
    }
    if segs.len() == 0 {
        assert(join_slash(longer) =~= name);
        assert(folder_path(segs) + name + seq!['/'] =~= folder_path(longer));
    } else {
        assert(longer.drop_last() =~= segs);
        assert(folder_path(segs) + name + seq!['/'] =~= folder_path(longer));
    }
    lemma_folder_path_segments(longer);
    assert(longer.drop_last() =~= segs);
    if segs.len() == 0 {
        lemma_byte_len_zero(join_slash(segs));
        reveal_strlit("/");
        assert("/"@ =~= seq!['/']);
    } else {
        lemma_join_nonempty(segs);
        lemma_byte_len_zero(join_slash(segs));
    }
}


/// Every folder the browser moves to ends with `'/'`, so that a name can
/// be put after it.
pub proof fn lemma_folder_paths_end_with_slash(p: Seq<char>, windows: bool, name: Seq<char>, line: Seq<char>)
    ensures
        ends_with_slash(parent_path(p, windows)),
        ends_with_slash(p + name + seq!['/']),
        ends_with_slash(if ends_with_slash(line) {
            line
        } else {
            line.push('/')
        }),
{
    reveal_strlit("C:/");
    reveal_strlit("/");
}

} // verus!
