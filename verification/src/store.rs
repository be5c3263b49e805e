//! The version store façade: the ledger of installed versions, the pointer
//! to the active one, and the active link set, composed into the
//! install / use / uninstall / list / current operations.
//!
//! The store itself holds only the in-memory model of that state and makes
//! every decision; each mutating operation returns the list of filesystem
//! actions that carries the decision out, in order. The caller performs
//! them and may substitute any medium, which keeps the store free of
//! filesystem failures of its own.
use crate::error::StoreError;
use crate::files::PointerParse;
use crate::files::ledger_of;
use crate::files::lemma_ledger_of_wf;
use crate::files::lemma_pointer_fields_tokens;
use crate::files::line_fields;
use crate::files::line_malformed;
use crate::files::malformed_of_lines;
use crate::files::parse_installed;
use crate::files::parse_pointer;
use crate::files::render_entries;
use crate::files::render_installed;
use crate::files::render_pointer;
use crate::files::render_pointer_record;
use crate::files::spec_lines;
use crate::files::spec_pointer_line;
use crate::ledger::Entry;
use crate::ledger::EntryV;
use crate::ledger::entries_view;
use crate::ledger::find_in;
use crate::ledger::lemma_find_push;
use crate::ledger::lemma_find_push_new;
use crate::ledger::lemma_find_wf;
use crate::ledger::lemma_remove_other;
use crate::ledger::lemma_remove_removes;
use crate::ledger::lemma_remove_wf;
use crate::ledger::lemma_wf_push;
use crate::ledger::removed;
use crate::ledger::spec_find;
use crate::ledger::spec_names;
use crate::ledger::spec_remove;
use crate::ledger::spec_upsert;
use crate::ledger::wf_entries;
use crate::ledger::wf_entry;
use crate::links::Link;
use crate::links::LinkKind;
use crate::links::LinkV;
use crate::links::lemma_plan_targets_under;
use crate::links::link_plan;
use crate::links::links_view;
use crate::links::spec_link_plan;
use crate::links::target_under;
use crate::platform::ArchiveKind;
use crate::text::is_token;
use crate::text::str_eq;
use vstd::prelude::*;

verus! {

/// One filesystem step a store operation asks its caller to perform.
/// Steps are carried out in list order.
pub enum FsAction {
    /// Remove a file or link if it is there; absence counts as done.
    RemoveFile { path: String },
    /// Recursively delete a directory tree; absence counts as done.
    RemoveDirAll { path: String },
    /// Create a symlink at `link` pointing at `target`.
    MakeLink { target: String, link: String, kind: LinkKind },
    /// Replace a file's contents, creating it if absent.
    WriteFile { path: String, content: String },
    /// Unpack an archive into a directory.
    Extract { archive: String, dest: String, kind: ArchiveKind },
}

/// The mathematical value of an [`FsAction`].
pub enum ActionV {
    RemoveFile { path: Seq<char> },
    RemoveDirAll { path: Seq<char> },
    MakeLink { target: Seq<char>, link: Seq<char>, kind: LinkKind },
    WriteFile { path: Seq<char>, content: Seq<char> },
    Extract { archive: Seq<char>, dest: Seq<char>, kind: ArchiveKind },
}

impl View for FsAction {
    type V = ActionV;

    open spec fn view(&self) -> ActionV {
        match self {
            FsAction::RemoveFile { path } => ActionV::RemoveFile { path: path@ },
            FsAction::RemoveDirAll { path } => ActionV::RemoveDirAll { path: path@ },
            FsAction::MakeLink { target, link, kind } => ActionV::MakeLink {
                target: target@,
                link: link@,
                kind: *kind,
            },
            FsAction::WriteFile { path, content } => ActionV::WriteFile {
                path: path@,
                content: content@,
            },
            FsAction::Extract { archive, dest, kind } => ActionV::Extract {
                archive: archive@,
                dest: dest@,
                kind: *kind,
            },
        }
    }
}

pub open spec fn actions_view(a: Seq<FsAction>) -> Seq<ActionV> {
    a.map_values(|x: FsAction| x@)
}

/// The store: the directory owning all persisted state, with the model of
/// the three entities living under it.
pub struct Cache {
    /// The store root directory.
    pub location: String,
    /// The ledger, in file order.
    pub entries: Vec<Entry>,
    /// The current-pointer record, if one is set.
    pub current: Option<Entry>,
    /// The links believed live, all for the active version.
    pub links: Vec<Link>,
}

/// The mathematical value of the whole store.
pub struct CacheV {
    pub location: Seq<char>,
    pub entries: Seq<EntryV>,
    pub current: Option<EntryV>,
    pub links: Seq<LinkV>,
}

impl View for Cache {
    type V = CacheV;

    open spec fn view(&self) -> CacheV {
        CacheV {
            location: self.location@,
            entries: entries_view(self.entries@),
            current: match self.current {
                Some(e) => Some(e@),
                None => None,
            },
            links: links_view(self.links@),
        }
    }
}

/// Well-formedness: every record the store holds could round-trip through
/// its file.
pub open spec fn wf(s: CacheV) -> bool {
    &&& wf_entries(s.entries)
    &&& (s.current matches Some(e) ==> wf_entry(e))
}

/// The pointer is a cache of one ledger record: if set, looking its
/// version up yields exactly the directory it names.
pub open spec fn pointer_backed(s: CacheV) -> bool {
    s.current matches Some(e) ==> spec_find(s.entries, e.version) == Some(e.dir)
}

/// The link set is the one the active version's plan calls for, and empty
/// when nothing is active.
pub open spec fn links_ok(s: CacheV) -> bool {
    s.links == match s.current {
        Some(e) => spec_link_plan(e.version, e.dir),
        None => Seq::<LinkV>::empty(),
    }
}

/// Path of the ledger file under a store root.
pub open spec fn spec_ledger_path(loc: Seq<char>) -> Seq<char> {
    loc + "/_current/installed"@
}

/// Path of the pointer file under a store root.
pub open spec fn spec_pointer_path(loc: Seq<char>) -> Seq<char> {
    loc + "/_current/haxe_version"@
}

/// Path of a version's extracted directory under a store root.
pub open spec fn spec_bin_dir(loc: Seq<char>, d: Seq<char>) -> Seq<char> {
    loc + "/bin/"@ + d
}

/// Path of a name directly under a store root.
pub open spec fn spec_root_join(loc: Seq<char>, name: Seq<char>) -> Seq<char> {
    loc + "/"@ + name
}

/// What loading makes of a pointer file, next to the loaded ledger: a
/// record whose lookup does not match the ledger is stale and counts as
/// not set.
pub open spec fn spec_loaded_pointer(entries: Seq<EntryV>, content: Seq<char>) -> Option<EntryV> {
    match line_fields(spec_pointer_line(content)) {
        Some(p) => if spec_find(entries, p.0) == Some(p.1) {
            Some(EntryV { version: p.0, dir: p.1 })
        } else {
            None
        },
        None => None,
    }
}

/// The removals that clear a link set, in set order.
pub open spec fn remove_link_actions(loc: Seq<char>, links: Seq<LinkV>) -> Seq<ActionV>
    decreases links.len(),
{
    if links.len() == 0 {
        Seq::empty()
    } else {
        seq![ActionV::RemoveFile { path: spec_root_join(loc, links[0].name) }]
            + remove_link_actions(loc, links.drop_first())
    }
}

/// The steps that switch the links to a plan: for each planned link,
/// clear whatever sits at its fixed name, then link it anew.
pub open spec fn make_link_actions(loc: Seq<char>, plan: Seq<LinkV>) -> Seq<ActionV>
    decreases plan.len(),
{
    if plan.len() == 0 {
        Seq::empty()
    } else {
        seq![
            ActionV::RemoveFile { path: spec_root_join(loc, plan[0].name) },
            ActionV::MakeLink {
                target: spec_root_join(loc, plan[0].target),
                link: spec_root_join(loc, plan[0].name),
                kind: plan[0].kind,
            },
        ] + make_link_actions(loc, plan.drop_first())
    }
}

/// The steps Install asks for: unpack the archive waiting under `bin/`,
/// drop it, and persist the new ledger.
pub open spec fn spec_install_actions(
    loc: Seq<char>,
    file_name: Seq<char>,
    kind: ArchiveKind,
    new_entries: Seq<EntryV>,
) -> Seq<ActionV> {
    seq![
        ActionV::Extract { archive: spec_bin_dir(loc, file_name), dest: loc + "/bin"@, kind },
        ActionV::RemoveFile { path: spec_bin_dir(loc, file_name) },
        ActionV::WriteFile { path: spec_ledger_path(loc), content: render_entries(new_entries) },
    ]
}

/// The steps Use asks for: switch every link of the version's plan, then
/// persist the pointer.
pub open spec fn spec_use_actions(loc: Seq<char>, v: Seq<char>, d: Seq<char>) -> Seq<ActionV> {
    make_link_actions(loc, spec_link_plan(v, d)) + seq![
        ActionV::WriteFile { path: spec_pointer_path(loc), content: render_pointer(v, d) },
    ]
}

/// The uninstalled version counts as active when the pointer names it —
/// or when no pointer is set at all, in which case the links are cleared
/// anyway to be safe.
pub open spec fn spec_active(s: CacheV, v: Seq<char>) -> bool {
    match s.current {
        Some(e) => e.version == v,
        None => true,
    }
}

/// The links an uninstall clears: the live set when the version is the
/// active one, the version's own plan when nothing is known to be active,
/// none otherwise.
pub open spec fn spec_clear_set(s: CacheV, v: Seq<char>, d: Seq<char>) -> Seq<LinkV> {
    match s.current {
        Some(e) => if e.version == v {
            s.links
        } else {
            Seq::<LinkV>::empty()
        },
        None => spec_link_plan(v, d),
    }
}

/// The steps Uninstall asks for: clear the links it must, delete the
/// version's extracted directory, and persist the shrunken ledger.
pub open spec fn spec_uninstall_actions(s: CacheV, v: Seq<char>, d: Seq<char>) -> Seq<ActionV> {
    remove_link_actions(s.location, spec_clear_set(s, v, d)) + seq![
        ActionV::RemoveDirAll { path: spec_bin_dir(s.location, d) },
        ActionV::WriteFile {
            path: spec_ledger_path(s.location),
            content: render_entries(spec_remove(s.entries, v)),
        },
    ]
}

/// Clearing a link set removes each of its links' fixed names: one
/// removal per link, in set order, and nothing else.
pub proof fn lemma_remove_link_actions_shape(loc: Seq<char>, links: Seq<LinkV>)
    ensures
        remove_link_actions(loc, links).len() == links.len(),
        forall|i: int|
            0 <= i < links.len() ==> remove_link_actions(loc, links)[i] == (ActionV::RemoveFile {
                path: spec_root_join(loc, links[i].name),
            }),
    decreases links.len(),
{
    if links.len() > 0 {
        lemma_remove_link_actions_shape(loc, links.drop_first());
        let r = remove_link_actions(loc, links);
        assert forall|i: int| 0 <= i < links.len() implies r[i] == (ActionV::RemoveFile {
            path: spec_root_join(loc, links[i].name),
        }) by {
            if i > 0 {
                assert(r[i] == remove_link_actions(loc, links.drop_first())[i - 1]);
                assert(links.drop_first()[i - 1] == links[i]);
            }
        }
    }
}

/// Uninstalling the version the pointer names clears every live link:
/// the uninstall steps begin with one removal per link of the active set,
/// each at the link's fixed name under the store root.
pub proof fn lemma_uninstall_of_active_clears_links(s: CacheV, v: Seq<char>, d: Seq<char>)
    requires
        s.current matches Some(e) && e.version == v,
    ensures
        spec_active(s, v),
        forall|i: int|
            0 <= i < s.links.len() ==> spec_uninstall_actions(s, v, d)[i] == (ActionV::RemoveFile {
                path: spec_root_join(s.location, s.links[i].name),
            }),
{
    assert(spec_clear_set(s, v, d) == s.links);
    lemma_remove_link_actions_shape(s.location, s.links);
    let removes = remove_link_actions(s.location, s.links);
    let all = spec_uninstall_actions(s, v, d);
    assert forall|i: int| 0 <= i < s.links.len() implies all[i] == (ActionV::RemoveFile {
        path: spec_root_join(s.location, s.links[i].name),
    }) by {
        assert(all[i] == removes[i]);
    }
}

/// The removals that clear the given links, as executable steps.
fn link_removes(location: &str, links: &Vec<Link>) -> (r: Vec<FsAction>)
    ensures
        actions_view(r@) == remove_link_actions(location@, links_view(links@)),
{
    let ghost lv = links_view(links@);
    let ghost loc = location@;
    let n = links.len();
    let mut out: Vec<FsAction> = Vec::new();
    let mut i: usize = 0;
    proof {
        assert(lv.skip(0) =~= lv);
        assert(actions_view(out@) =~= Seq::<ActionV>::empty());
    }
    while i < n
        invariant
            0 <= i <= n,
            n == links@.len(),
            lv == links_view(links@),
            lv.len() == n,
            loc == location@,
            remove_link_actions(loc, lv) == actions_view(out@) + remove_link_actions(
                loc,
                lv.skip(i as int),
            ),
        decreases n - i,
    {
        proof {
            assert(lv.skip(i as int)[0] == lv[i as int]);
            assert(lv[i as int] == links@[i as int]@);
            assert(lv.skip(i as int).drop_first() =~= lv.skip(i as int + 1));
        }
        let ghost before = actions_view(out@);
        let mut path = location.to_owned();
        path.append("/");
        path.append(links[i].name.as_str());
        out.push(FsAction::RemoveFile { path });
        proof {
            let one = seq![ActionV::RemoveFile { path: spec_root_join(loc, lv[i as int].name) }];
            assert(actions_view(out@) =~= before + one);
            assert(before + (one + remove_link_actions(loc, lv.skip(i as int + 1))) =~= (before
                + one) + remove_link_actions(loc, lv.skip(i as int + 1)));
        }
        i += 1;
    }
    proof {
        assert(lv.skip(n as int) =~= Seq::<LinkV>::empty());
        assert(actions_view(out@) + Seq::<ActionV>::empty() =~= actions_view(out@));
    }
    out
}

impl Cache {
    /// A store with nothing installed and nothing active.
    pub fn new(location: String) -> (r: Cache)
        ensures
            r@.location == location@,
            r@.entries == Seq::<EntryV>::empty(),
            r@.current is None,
            r@.links == Seq::<LinkV>::empty(),
            wf(r@),
            pointer_backed(r@),
            links_ok(r@),
    {
        let r = Cache { location, entries: Vec::new(), current: None, links: Vec::new() };
        proof {
            assert(entries_view(r.entries@) =~= Seq::<EntryV>::empty());
            assert(links_view(r.links@) =~= Seq::<LinkV>::empty());
        }
        r
    }

    /// A store rebuilt from the contents of its two files. Besides the
    /// store, the count of malformed ledger lines is handed back for the
    /// caller to report. A pointer file with one lone field is corruption;
    /// a pointer record the ledger does not back is stale and loads as
    /// not set.
    pub fn load(location: String, installed: &str, pointer: &str) -> (r: Result<
        (Cache, usize),
        StoreError,
    >)
        ensures
            r matches Ok(p) ==> {
                &&& p.0@.location == location@
                &&& p.0@.entries == ledger_of(installed@)
                &&& p.0@.current == spec_loaded_pointer(ledger_of(installed@), pointer@)
                &&& p.1 == malformed_of_lines(spec_lines(installed@))
                &&& wf(p.0@)
                &&& pointer_backed(p.0@)
                &&& links_ok(p.0@)
            },
            r matches Err(e) ==> (e matches StoreError::CorruptState { path } && path@
                == spec_pointer_path(location@) && line_malformed(spec_pointer_line(pointer@))),
            r is Err <==> line_malformed(spec_pointer_line(pointer@)),
    {
        let parsed = parse_installed(installed);
        let entries = parsed.0;
        let bad = parsed.1;
        proof {
            lemma_ledger_of_wf(installed@);
            lemma_pointer_fields_tokens(pointer@);
        }
        let current: Option<Entry> = match parse_pointer(pointer) {
            PointerParse::Empty => None,
            PointerParse::Corrupt => {
                let mut path = location;
                path.append("/_current/haxe_version");
                return Err(StoreError::CorruptState { path });
            },
            PointerParse::Record(v, d) => {
                match find_in(&entries, v.as_str()) {
                    Some(fd) => {
                        if str_eq(fd.as_str(), d.as_str()) {
                            Some(Entry::new(v, d))
                        } else {
                            None
                        }
                    },
                    None => None,
                }
            },
        };
        let links: Vec<Link> = match &current {
            Some(e) => link_plan(e.version.as_str(), e.dir.as_str()),
            None => Vec::new(),
        };
        let r = Cache { location, entries, current, links };
        proof {
            assert(links_view(Seq::<Link>::empty()) =~= Seq::<LinkV>::empty());
        }
        Ok((r, bad))
    }

    /// Path of the ledger file.
    pub fn ledger_path(&self) -> (r: String)
        ensures
            r@ == spec_ledger_path(self@.location),
    {
        let mut p = self.location.clone();
        p.append("/_current/installed");
        p
    }

    /// Path of the pointer file.
    pub fn pointer_path(&self) -> (r: String)
        ensures
            r@ == spec_pointer_path(self@.location),
    {
        let mut p = self.location.clone();
        p.append("/_current/haxe_version");
        p
    }

    /// Path of a version's extracted directory.
    pub fn bin_dir_path(&self, d: &str) -> (r: String)
        ensures
            r@ == spec_bin_dir(self@.location, d@),
    {
        let mut p = self.location.clone();
        p.append("/bin/");
        p.append(d);
        p
    }

    /// Path of a name directly under the store root.
    pub fn root_join(&self, name: &str) -> (r: String)
        ensures
            r@ == spec_root_join(self@.location, name@),
    {
        let mut p = self.location.clone();
        p.append("/");
        p.append(name);
        p
    }

    /// The directory the named version was extracted to, if it is
    /// installed: the first ledger record wins.
    pub fn find_version(&self, version: &String) -> (r: Option<String>)
        ensures
            r matches Some(d) ==> spec_find(self@.entries, version@) == Some(d@),
            r is None ==> spec_find(self@.entries, version@) is None,
    {
        find_in(&self.entries, version.as_str())
    }

    /// Records the version in the ledger, replacing any record it already
    /// has, and hands back the rewrite of the ledger file.
    pub fn add_version(&mut self, version: &String, binary_directory: String) -> (r: FsAction)
        requires
            is_token(version@),
            is_token(binary_directory@),
        ensures
            final(self)@.entries == spec_upsert(old(self)@.entries, version@, binary_directory@),
            final(self)@.location == old(self)@.location,
            final(self)@.current == old(self)@.current,
            final(self)@.links == old(self)@.links,
            wf(old(self)@) ==> wf(final(self)@),
            links_ok(old(self)@) ==> links_ok(final(self)@),
            r@ == (ActionV::WriteFile {
                path: spec_ledger_path(final(self)@.location),
                content: render_entries(final(self)@.entries),
            }),
    {
        let ghost old_entries = entries_view(self.entries@);
        let kept = removed(&self.entries, version.as_str());
        self.entries = kept;
        let ghost gv = version@;
        let ghost gd = binary_directory@;
        self.entries.push(Entry::new(version.clone(), binary_directory));
        proof {
            assert(entries_view(self.entries@) =~= spec_remove(old_entries, gv).push(
                EntryV { version: gv, dir: gd },
            ));
            if wf(old(self)@) {
                lemma_remove_wf(old_entries, gv);
                lemma_wf_push(spec_remove(old_entries, gv), EntryV { version: gv, dir: gd });
            }
        }
        FsAction::WriteFile { path: self.ledger_path(), content: render_installed(&self.entries) }
    }

    /// Strikes the version from the ledger, if it is there, and hands back
    /// the rewrite of the ledger file. Removing an absent version rewrites
    /// the file unchanged.
    pub fn remove_version(&mut self, version: &String) -> (r: FsAction)
        ensures
            final(self)@.entries == spec_remove(old(self)@.entries, version@),
            final(self)@.location == old(self)@.location,
            final(self)@.current == old(self)@.current,
            final(self)@.links == old(self)@.links,
            wf(old(self)@) ==> wf(final(self)@),
            links_ok(old(self)@) ==> links_ok(final(self)@),
            r@ == (ActionV::WriteFile {
                path: spec_ledger_path(final(self)@.location),
                content: render_entries(final(self)@.entries),
            }),
    {
        let ghost old_entries = entries_view(self.entries@);
        let kept = removed(&self.entries, version.as_str());
        self.entries = kept;
        proof {
            if wf(old(self)@) {
                lemma_remove_wf(old_entries, version@);
            }
        }
        FsAction::WriteFile { path: self.ledger_path(), content: render_installed(&self.entries) }
    }

    /// Every ledger record, in ledger order.
    pub fn all_versions(&self) -> (r: Vec<Entry>)
        ensures
            entries_view(r@) == self@.entries,
    {
        let n = self.entries.len();
        let mut out: Vec<Entry> = Vec::new();
        let mut i: usize = 0;
        while i < n
            invariant
                0 <= i <= n,
                n == self.entries@.len(),
                out@.len() == i,
                forall|j: int| 0 <= j < i ==> #[trigger] out@[j] == self.entries@[j],
            decreases n - i,
        {
            out.push(self.entries[i].clone());
            i += 1;
        }
        proof {
            assert(entries_view(out@) =~= entries_view(self.entries@));
        }
        out
    }

    /// The installed version names, in ledger order.
    pub fn installed_names(&self) -> (r: Vec<String>)
        ensures
            r@.map_values(|s: String| s@) == spec_names(self@.entries),
    {
        let n = self.entries.len();
        let mut out: Vec<String> = Vec::new();
        let mut i: usize = 0;
        while i < n
            invariant
                0 <= i <= n,
                n == self.entries@.len(),
                out@.len() == i,
                forall|j: int| 0 <= j < i ==> #[trigger] out@[j]@ == self.entries@[j].version@,
            decreases n - i,
        {
            out.push(self.entries[i].version.clone());
            i += 1;
        }
        proof {
            assert(out@.map_values(|s: String| s@) =~= spec_names(self@.entries));
        }
        out
    }

    /// The pointer record, if one is set.
    pub fn current_version(&self) -> (r: Option<Entry>)
        ensures
            r matches Some(e) ==> self@.current == Some(e@),
            r is None ==> self@.current is None,
    {
        match &self.current {
            Some(e) => Some(e.clone()),
            None => None,
        }
    }

    /// Overwrites the pointer record and hands back the rewrite of the
    /// pointer file. This is the raw pointer operation; switching versions
    /// goes through `use_version`, which also settles the links.
    pub fn set_current_version(&mut self, version: &String, tar_version: &String) -> (r: FsAction)
        requires
            is_token(version@),
            is_token(tar_version@),
        ensures
            final(self)@.current == Some(EntryV { version: version@, dir: tar_version@ }),
            final(self)@.entries == old(self)@.entries,
            final(self)@.location == old(self)@.location,
            final(self)@.links == old(self)@.links,
            wf(old(self)@) ==> wf(final(self)@),
            r@ == (ActionV::WriteFile {
                path: spec_pointer_path(final(self)@.location),
                content: render_pointer(version@, tar_version@),
            }),
    {
        self.current = Some(Entry::new(version.clone(), tar_version.clone()));
        FsAction::WriteFile {
            path: self.pointer_path(),
            content: render_pointer_record(version.as_str(), tar_version.as_str()),
        }
    }

    /// Install: records a freshly downloaded version. The caller has put
    /// the release archive `file_name` under `bin/` and learned the name
    /// `dir` of the directory it unpacks to; the returned steps unpack
    /// it, drop the archive, and persist the grown ledger. A version the
    /// ledger already holds is refused, and nothing changes. Which
    /// version is active does not change either way.
    pub fn install(
        &mut self,
        version: &String,
        file_name: &String,
        kind: ArchiveKind,
        dir: String,
    ) -> (r: Result<Vec<FsAction>, StoreError>)
        requires
            is_token(version@),
            is_token(dir@),
        ensures
            r matches Ok(actions) ==> {
                &&& spec_find(old(self)@.entries, version@) is None
                &&& final(self)@.entries == old(self)@.entries.push(
                    EntryV { version: version@, dir: dir@ },
                )
                &&& spec_find(final(self)@.entries, version@) == Some(dir@)
                &&& final(self)@.location == old(self)@.location
                &&& final(self)@.current == old(self)@.current
                &&& final(self)@.links == old(self)@.links
                &&& actions_view(actions@) == spec_install_actions(
                    old(self)@.location,
                    file_name@,
                    kind,
                    final(self)@.entries,
                )
            },
            r matches Err(e) ==> {
                &&& (e matches StoreError::AlreadyInstalled { version: v2 } && v2@ == version@)
                &&& spec_find(old(self)@.entries, version@) is Some
                &&& *final(self) == *old(self)
            },
            r is Err <==> spec_find(old(self)@.entries, version@) is Some,
            wf(old(self)@) ==> wf(final(self)@),
            pointer_backed(old(self)@) ==> pointer_backed(final(self)@),
            links_ok(old(self)@) ==> links_ok(final(self)@),
    {
        match find_in(&self.entries, version.as_str()) {
            Some(_) => Err(StoreError::AlreadyInstalled { version: version.clone() }),
            None => {
                let ghost old_entries = entries_view(self.entries@);
                let ghost e = EntryV { version: version@, dir: dir@ };
                self.entries.push(Entry::new(version.clone(), dir));
                let archive = self.bin_dir_path(file_name.as_str());
                let archive_again = self.bin_dir_path(file_name.as_str());
                let mut dest = self.location.clone();
                dest.append("/bin");
                let mut actions: Vec<FsAction> = Vec::new();
                actions.push(FsAction::Extract { archive, dest, kind });
                actions.push(FsAction::RemoveFile { path: archive_again });
                actions.push(
                    FsAction::WriteFile {
                        path: self.ledger_path(),
                        content: render_installed(&self.entries),
                    },
                );
                proof {
                    assert(entries_view(self.entries@) =~= old_entries.push(e));
                    lemma_find_push_new(old_entries, e);
                    if wf(old(self)@) {
                        lemma_wf_push(old_entries, e);
                    }
                    if pointer_backed(old(self)@) {
                        match old(self)@.current {
                            Some(c) => {
                                lemma_find_push(old_entries, e, c.version);
                            },
                            None => {},
                        }
                    }
                    assert(actions_view(actions@) =~= spec_install_actions(
                        old(self)@.location,
                        file_name@,
                        kind,
                        entries_view(self.entries@),
                    ));
                }
                Ok(actions)
            },
        }
    }

    /// Use: makes an installed version the active one. The returned steps
    /// clear and recreate each link of the version's plan, then persist
    /// the pointer; afterwards every live link points under the version's
    /// extracted directory and the pointer names the version. A version
    /// the ledger does not hold is refused, and nothing changes.
    pub fn use_version(&mut self, version: &String) -> (r: Result<Vec<FsAction>, StoreError>)
        ensures
            r matches Ok(actions) ==> {
                &&& final(self)@.entries == old(self)@.entries
                &&& final(self)@.location == old(self)@.location
                &&& (spec_find(old(self)@.entries, version@) matches Some(d) && {
                    &&& final(self)@.current == Some(EntryV { version: version@, dir: d })
                    &&& final(self)@.links == spec_link_plan(version@, d)
                    &&& actions_view(actions@) == spec_use_actions(
                        old(self)@.location,
                        version@,
                        d,
                    )
                    &&& forall|i: int|
                        0 <= i < final(self)@.links.len() ==> target_under(
                            #[trigger] final(self)@.links[i].target,
                            d,
                        )
                })
                &&& pointer_backed(final(self)@)
                &&& links_ok(final(self)@)
            },
            r matches Err(e) ==> {
                &&& (e matches StoreError::NotInstalled { version: v2 } && v2@ == version@)
                &&& spec_find(old(self)@.entries, version@) is None
                &&& *final(self) == *old(self)
            },
            r is Err <==> spec_find(old(self)@.entries, version@) is None,
            wf(old(self)@) ==> wf(final(self)@),
            pointer_backed(old(self)@) ==> pointer_backed(final(self)@),
    {
        match find_in(&self.entries, version.as_str()) {
            None => Err(StoreError::NotInstalled { version: version.clone() }),
            Some(d) => {
                let plan = link_plan(version.as_str(), d.as_str());
                let n = plan.len();
                let mut actions: Vec<FsAction> = Vec::new();
                let ghost pv = links_view(plan@);
                let ghost loc = self@.location;
                let mut i: usize = 0;
                proof {
                    assert(pv.skip(0) =~= pv);
                    assert(actions_view(actions@) =~= Seq::<ActionV>::empty());
                }
                while i < n
                    invariant
                        0 <= i <= n,
                        n == plan@.len(),
                        pv == links_view(plan@),
                        pv.len() == n,
                        loc == self@.location,
                        make_link_actions(loc, pv) == actions_view(actions@) + make_link_actions(
                            loc,
                            pv.skip(i as int),
                        ),
                    decreases n - i,
                {
                    proof {
                        assert(pv.skip(i as int)[0] == pv[i as int]);
                        assert(pv[i as int] == plan@[i as int]@);
                        assert(pv.skip(i as int).drop_first() =~= pv.skip(i as int + 1));
                    }
                    let ghost before = actions_view(actions@);
                    let name_path = self.root_join(plan[i].name.as_str());
                    let name_path_again = self.root_join(plan[i].name.as_str());
                    let target_path = self.root_join(plan[i].target.as_str());
                    actions.push(FsAction::RemoveFile { path: name_path });
                    actions.push(
                        FsAction::MakeLink {
                            target: target_path,
                            link: name_path_again,
                            kind: plan[i].kind,
                        },
                    );
                    proof {
                        let two = seq![
                            ActionV::RemoveFile { path: spec_root_join(loc, pv[i as int].name) },
                            ActionV::MakeLink {
                                target: spec_root_join(loc, pv[i as int].target),
                                link: spec_root_join(loc, pv[i as int].name),
                                kind: pv[i as int].kind,
                            },
                        ];
                        assert(actions_view(actions@) =~= before + two);
                        assert(before + (two + make_link_actions(loc, pv.skip(i as int + 1)))
                            =~= (before + two) + make_link_actions(loc, pv.skip(i as int + 1)));
                    }
                    i += 1;
                }
                proof {
                    assert(pv.skip(n as int) =~= Seq::<LinkV>::empty());
                    assert(actions_view(actions@) + Seq::<ActionV>::empty() =~= actions_view(
                        actions@,
                    ));
                }
                let ghost before = actions_view(actions@);
                let pointer_file = self.pointer_path();
                actions.push(
                    FsAction::WriteFile {
                        path: pointer_file,
                        content: render_pointer_record(version.as_str(), d.as_str()),
                    },
                );
                self.current = Some(Entry::new(version.clone(), d.clone()));
                self.links = plan;
                proof {
                    assert(actions_view(actions@) =~= before + seq![
                        ActionV::WriteFile {
                            path: spec_pointer_path(loc),
                            content: render_pointer(version@, d@),
                        },
                    ]);
                    if wf(old(self)@) {
                        lemma_find_wf(entries_view(old(self).entries@), version@);
                    }
                    lemma_plan_targets_under(version@, d@);
                }
                Ok(actions)
            },
        }
    }

    /// Uninstall: returns an installed version to absent. The returned
    /// steps clear the links the version holds live (also when no pointer
    /// is set, to be safe), delete its extracted directory, and persist
    /// the shrunken ledger; clearing what is already gone counts as done,
    /// so repeating an uninstall's steps is harmless. When the uninstalled
    /// version was the active one, the model's pointer is cleared with the
    /// links; the pointer file is left as it is, and the stale record in
    /// it counts as not set the next time the store is loaded. A version
    /// the ledger does not hold is refused, and nothing changes.
    pub fn uninstall(&mut self, version: &String) -> (r: Result<Vec<FsAction>, StoreError>)
        ensures
            r matches Ok(actions) ==> {
                &&& (spec_find(old(self)@.entries, version@) matches Some(d) && actions_view(
                    actions@,
                ) == spec_uninstall_actions(old(self)@, version@, d))
                &&& final(self)@.entries == spec_remove(old(self)@.entries, version@)
                &&& spec_find(final(self)@.entries, version@) is None
                &&& final(self)@.location == old(self)@.location
                &&& (spec_active(old(self)@, version@) ==> final(self)@.current is None
                    && final(self)@.links == Seq::<LinkV>::empty())
                &&& (!spec_active(old(self)@, version@) ==> final(self)@.current
                    == old(self)@.current && final(self)@.links == old(self)@.links)
            },
            r matches Err(e) ==> {
                &&& (e matches StoreError::NotInstalled { version: v2 } && v2@ == version@)
                &&& spec_find(old(self)@.entries, version@) is None
                &&& *final(self) == *old(self)
            },
            r is Err <==> spec_find(old(self)@.entries, version@) is None,
            wf(old(self)@) ==> wf(final(self)@),
            pointer_backed(old(self)@) ==> pointer_backed(final(self)@),
            links_ok(old(self)@) ==> links_ok(final(self)@),
    {
        match find_in(&self.entries, version.as_str()) {
            None => Err(StoreError::NotInstalled { version: version.clone() }),
            Some(d) => {
                let ghost old_entries = entries_view(self.entries@);
                let ghost loc = self@.location;
                let ghost clear_v = spec_clear_set(self@, version@, d@);
                let was_active: bool;
                let mut actions: Vec<FsAction>;
                match &self.current {
                    Some(e) => {
                        if str_eq(e.version.as_str(), version.as_str()) {
                            was_active = true;
                            actions = link_removes(self.location.as_str(), &self.links);
                        } else {
                            was_active = false;
                            actions = Vec::new();
                            proof {
                                assert(actions_view(actions@) =~= Seq::<ActionV>::empty());
                                assert(remove_link_actions(loc, clear_v)
                                    == Seq::<ActionV>::empty());
                            }
                        }
                    },
                    None => {
                        was_active = true;
                        let plan = link_plan(version.as_str(), d.as_str());
                        actions = link_removes(self.location.as_str(), &plan);
                    },
                }
                let ghost removes = actions_view(actions@);
                actions.push(FsAction::RemoveDirAll { path: self.bin_dir_path(d.as_str()) });
                let kept = removed(&self.entries, version.as_str());
                self.entries = kept;
                actions.push(
                    FsAction::WriteFile {
                        path: self.ledger_path(),
                        content: render_installed(&self.entries),
                    },
                );
                if was_active {
                    self.current = None;
                    self.links = Vec::new();
                }
                proof {
                    lemma_remove_removes(old_entries, version@);
                    if wf(old(self)@) {
                        lemma_remove_wf(old_entries, version@);
                    }
                    if pointer_backed(old(self)@) {
                        match old(self)@.current {
                            Some(c) => {
                                if c.version != version@ {
                                    lemma_remove_other(old_entries, version@, c.version);
                                }
                            },
                            None => {},
                        }
                    }
                    assert(links_view(Seq::<Link>::empty()) =~= Seq::<LinkV>::empty());
                    let two = seq![
                        ActionV::RemoveDirAll { path: spec_bin_dir(loc, d@) },
                        ActionV::WriteFile {
                            path: spec_ledger_path(loc),
                            content: render_entries(spec_remove(old_entries, version@)),
                        },
                    ];
                    assert(actions_view(actions@) =~= removes + two);
                }
                Ok(actions)
            },
        }
    }
}

} // verus!
