//! An absolute directory path as a plain value: the ordered sequence of its
//! component names, the empty sequence standing for the filesystem root.

use vstd::prelude::*;

verus! {

/// An absolute directory path, as the sequence of component names below the
/// filesystem root.  The root itself is the empty sequence.
pub struct DirPath {
    pub components: Vec<String>,
}

impl View for DirPath {
    type V = Seq<Seq<char>>;

    open spec fn view(&self) -> Seq<Seq<char>> {
        self.components@.map_values(|component: String| component@)
    }
}

/// The display name of a path: its last component, or `/` for the root.
pub open spec fn spec_display_name(path: Seq<Seq<char>>) -> Seq<char> {
    if path.len() == 0 {
        seq!['/']
    } else {
        path.last()
    }
}

impl DirPath {
    /// The filesystem root.
    pub fn root() -> (result: DirPath)
        ensures
            result@ == Seq::<Seq<char>>::empty(),
    {
        let result = DirPath { components: Vec::new() };
        proof {
            assert(result@ =~= Seq::<Seq<char>>::empty());
        }
        result
    }

    /// How many components below the root this path has.
    pub fn depth(&self) -> (result: usize)
        ensures
            result == self@.len(),
    {
        self.components.len()
    }

    /// An identical copy of this path.
    pub fn duplicate(&self) -> (result: DirPath)
        ensures
            result@ == self@,
    {
        let mut components: Vec<String> = Vec::new();
        let mut i: usize = 0;
        while i < self.components.len()
            invariant
                i <= self.components@.len(),
                components@.len() == i,
                forall|k: int| 0 <= k < i ==> components@[k] == self.components@[k],
            decreases self.components@.len() - i,
        {
            components.push(self.components[i].clone());
            i += 1;
        }
        let result = DirPath { components };
        proof {
            assert(result@ =~= self@);
        }
        result
    }

    /// The path one level up, or `None` at the filesystem root.
    pub fn parent(&self) -> (result: Option<DirPath>)
        ensures
            match result {
                Some(parent_path) => self@.len() > 0 && parent_path@ == self@.drop_last(),
                None => self@.len() == 0,
            },
    {
        if self.components.len() == 0 {
            return None;
        }
        let mut components: Vec<String> = Vec::new();
        let last: usize = self.components.len() - 1;
        let mut i: usize = 0;
        while i < last
            invariant
                last < self.components@.len(),
                i <= last,
                components@.len() == i,
                forall|k: int| 0 <= k < i ==> components@[k] == self.components@[k],
            decreases last - i,
        {
            components.push(self.components[i].clone());
            i += 1;
        }
        let result = DirPath { components };
        proof {
            assert(result@ =~= self@.drop_last());
        }
        Some(result)
    }

    /// The path of the named child directory.
    pub fn child(&self, child_name: String) -> (result: DirPath)
        ensures
            result@ == self@.push(child_name@),
    {
        let mut extended = self.duplicate();
        extended.components.push(child_name);
        proof {
            assert(extended@ =~= self@.push(child_name@));
        }
        extended
    }

    /// The name under which this path is titled: its last component, or `/`
    /// for the root.
    pub fn display_name(&self) -> (result: String)
        ensures
            result@ == spec_display_name(self@),
    {
        if self.components.len() == 0 {
            let result = make_root_name();
            result
        } else {
            self.components[self.components.len() - 1].clone()
        }
    }

    /// If this path points directly into `ancestor` (one level below it),
    /// the name of the connecting child entry.
    pub fn child_name_within(&self, ancestor: &DirPath) -> (result: Option<String>)
        ensures
            match result {
                Some(child_name) => self@ == ancestor@.push(child_name@),
                None => self@ != ancestor@.push(self@.last()) || self@.len() == 0,
            },
    {
        if self.components.len() == 0 || self.components.len() - 1 != ancestor.components.len() {
            proof {
                if self@.len() > 0 {
                    assert(ancestor@.push(self@.last()).len() == ancestor@.len() + 1);
                }
            }
            return None;
        }
        let mut i: usize = 0;
        while i < ancestor.components.len()
            invariant
                self.components@.len() == ancestor.components@.len() + 1,
                i <= ancestor.components@.len(),
                forall|k: int| 0 <= k < i ==> self.components@[k]@ == ancestor.components@[k]@,
            decreases ancestor.components@.len() - i,
        {
            if !self.components[i].eq(&ancestor.components[i]) {
                proof {
                    assert(self@[i as int] != ancestor@.push(self@.last())[i as int]);
                }
                return None;
            }
            i += 1;
        }
        let child_name = self.components[self.components.len() - 1].clone();
        proof {
            assert(self@ =~= ancestor@.push(child_name@));
        }
        Some(child_name)
    }
}

/// Relies on `str::to_owned` via a literal: the one-character name `/` under
/// which the filesystem root is titled.
fn make_root_name() -> (result: String)
    ensures
        result@ == seq!['/'],
{
    proof {
        reveal_strlit("/");
        assert("/"@ =~= seq!['/']);
    }
    "/".to_owned()
}

} // verus!
