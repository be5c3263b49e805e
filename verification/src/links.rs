//! The active link set: the symlinks that expose the active version's
//! tools at fixed names directly under the store root.
//!
//! Which links a version gets depends only on which package its name
//! selects; every target lies under that version's extracted directory.
//! Platform differences (file versus directory links) are carried as a
//! link kind, so the store itself stays platform-agnostic.
use crate::text::str_eq;
use vstd::prelude::*;

verus! {

/// Whether a link points at a file or at a directory.
#[derive(Clone, Copy, PartialEq, Eq, Structural)]
pub enum LinkKind {
    File,
    Directory,
}

/// One symlink of the active set. Both paths are relative to the store
/// root: `name` is where the link lives, `target` what it points at.
pub struct Link {
    pub name: String,
    pub target: String,
    pub kind: LinkKind,
}

/// The mathematical value of a [`Link`].
pub struct LinkV {
    pub name: Seq<char>,
    pub target: Seq<char>,
    pub kind: LinkKind,
}

impl View for Link {
    type V = LinkV;

    open spec fn view(&self) -> LinkV {
        LinkV { name: self.name@, target: self.target@, kind: self.kind }
    }
}

impl Clone for Link {
    fn clone(&self) -> (r: Self)
        ensures
            r == *self,
    {
        Link { name: self.name.clone(), target: self.target.clone(), kind: self.kind }
    }
}

pub open spec fn links_view(ls: Seq<Link>) -> Seq<LinkV> {
    ls.map_values(|l: Link| l@)
}

/// The links that switching to a version of the given name and extracted
/// directory creates. The two auxiliary packages expose one tool each;
/// everything else is a compiler release exposing the compiler, the
/// library manager, and the standard library directory.
pub open spec fn spec_link_plan(v: Seq<char>, d: Seq<char>) -> Seq<LinkV> {
    if v == "ceramic"@ {
        seq![
            LinkV { name: "ceramic"@, target: "bin/"@ + d + "/tools/ceramic"@, kind: LinkKind::File },
        ]
    } else if v == "neko"@ {
        seq![LinkV { name: "neko"@, target: "bin/"@ + d + "/neko"@, kind: LinkKind::File }]
    } else {
        seq![
            LinkV { name: "haxe"@, target: "bin/"@ + d + "/haxe"@, kind: LinkKind::File },
            LinkV { name: "haxelib"@, target: "bin/"@ + d + "/haxelib"@, kind: LinkKind::File },
            LinkV { name: "std"@, target: "bin/"@ + d + "/std"@, kind: LinkKind::Directory },
        ]
    }
}

/// The path lies under the version's extracted directory: it starts with
/// `bin/<dir>/`.
pub open spec fn target_under(t: Seq<char>, d: Seq<char>) -> bool {
    let p = "bin/"@ + d + "/"@;
    t.len() >= p.len() && t.subrange(0, p.len() as int) == p
}

/// Every link of a plan points under the planned version's extracted
/// directory, whatever package the name selects.
pub proof fn lemma_plan_targets_under(v: Seq<char>, d: Seq<char>)
    ensures
        forall|i: int|
            0 <= i < spec_link_plan(v, d).len() ==> target_under(
                #[trigger] spec_link_plan(v, d)[i].target,
                d,
            ),
{
    let p = "bin/"@ + d + "/"@;
    reveal_strlit("/");
    reveal_strlit("/tools/ceramic");
    reveal_strlit("/neko");
    reveal_strlit("/haxe");
    reveal_strlit("/haxelib");
    reveal_strlit("/std");
    assert forall|i: int| 0 <= i < spec_link_plan(v, d).len() implies target_under(
        #[trigger] spec_link_plan(v, d)[i].target,
        d,
    ) by {
        let t = spec_link_plan(v, d)[i].target;
        if v == "ceramic"@ {
            assert(t == "bin/"@ + d + "/tools/ceramic"@);
            assert(t.subrange(0, p.len() as int) =~= p);
        } else if v == "neko"@ {
            assert(t == "bin/"@ + d + "/neko"@);
            assert(t.subrange(0, p.len() as int) =~= p);
        } else if i == 0 {
            assert(t == "bin/"@ + d + "/haxe"@);
            assert(t.subrange(0, p.len() as int) =~= p);
        } else if i == 1 {
            assert(t == "bin/"@ + d + "/haxelib"@);
            assert(t.subrange(0, p.len() as int) =~= p);
        } else {
            assert(t == "bin/"@ + d + "/std"@);
            assert(t.subrange(0, p.len() as int) =~= p);
        }
    }
}

/// Builds one link of a plan.
fn mk_link(name: &str, dir: &str, tool: &str, kind: LinkKind) -> (r: Link)
    ensures
        r@ == (LinkV { name: name@, target: "bin/"@ + dir@ + tool@, kind }),
{
    let mut target = String::from_str("bin/");
    target.append(dir);
    target.append(tool);
    Link { name: name.to_owned(), target, kind }
}

/// The links that switching to this version creates.
pub fn link_plan(version: &str, dir: &str) -> (r: Vec<Link>)
    ensures
        links_view(r@) == spec_link_plan(version@, dir@),
{
    let mut out: Vec<Link> = Vec::new();
    if str_eq(version, "ceramic") {
        out.push(mk_link("ceramic", dir, "/tools/ceramic", LinkKind::File));
        proof {
            assert(links_view(out@) =~= spec_link_plan(version@, dir@));
        }
    } else if str_eq(version, "neko") {
        out.push(mk_link("neko", dir, "/neko", LinkKind::File));
        proof {
            assert(links_view(out@) =~= spec_link_plan(version@, dir@));
        }
    } else {
        out.push(mk_link("haxe", dir, "/haxe", LinkKind::File));
        out.push(mk_link("haxelib", dir, "/haxelib", LinkKind::File));
        out.push(mk_link("std", dir, "/std", LinkKind::Directory));
        proof {
            assert(links_view(out@) =~= spec_link_plan(version@, dir@));
        }
    }
    out
}

} // verus!
