//! Optional rule modules and the set of those switched on.
use vstd::prelude::*;

verus! {

/// A published expansion, grouping several rule modules.
#[derive(Copy, Clone, Hash, PartialEq, Eq, Debug, Structural)]
pub enum ExtensionMajor {
    Ex0, Ex1, Ex2, Ex3, Ex4, Ex5, Ex6, Ex7, Ex8, Ex9, Ex10, ExSmallBox,
}

/// One optional rule module.
#[derive(Copy, Clone, Hash, PartialEq, Eq, Debug, Structural)]
pub enum Extension {
    Ex0Garden, Ex0River,
    Ex1Tiles, Ex1LargeMeeple, Ex1Inn, Ex1Cathedral,
    Ex2Tiles, Ex2Builder, Ex2Pig, Ex2Goods,
    Ex3Tiles, Ex3Dragon, Ex3Fairy, Ex3Portal,
    Ex4Tiles, Ex4TowerThief,
    Ex5Tiles, Ex5Townhall, Ex5Mayor, Ex5Messenger, Ex5Scarecrow,
    Ex6Tiles, Ex6Tournament,
    Ex7Tiles, Ex7Siege,
    Ex8Tiles, Ex8Bridge, Ex8Castle, Ex8Barn,
    Ex9Tiles, Ex9Shepherd, Ex9Geese, Ex9Vineyard,
    Ex10Tiles, Ex10Bigtop, Ex10AdditionalMeeple, Ex10Ringmistress,
    ExFlyingMachine, ExMessenger, ExFerry, ExGoldMine, ExMagicianWitch, ExRobber, ExCropCircle,
}

/// The rule modules of an expansion, in catalog order.
pub open spec fn group_of(major: ExtensionMajor) -> Seq<Extension> {
    match major {
            ExtensionMajor::Ex0 => seq![Extension::Ex0Garden, Extension::Ex0River],
            ExtensionMajor::Ex1 => seq![Extension::Ex1Tiles, Extension::Ex1LargeMeeple, Extension::Ex1Inn, Extension::Ex1Cathedral],
            ExtensionMajor::Ex2 => seq![Extension::Ex2Tiles, Extension::Ex2Builder, Extension::Ex2Pig, Extension::Ex2Goods],
            ExtensionMajor::Ex3 => seq![Extension::Ex3Tiles, Extension::Ex3Dragon, Extension::Ex3Fairy, Extension::Ex3Portal],
            ExtensionMajor::Ex4 => seq![Extension::Ex4Tiles, Extension::Ex4TowerThief],
            ExtensionMajor::Ex5 => seq![Extension::Ex5Tiles, Extension::Ex5Townhall, Extension::Ex5Mayor, Extension::Ex5Messenger, Extension::Ex5Scarecrow],
            ExtensionMajor::Ex6 => seq![Extension::Ex6Tiles, Extension::Ex6Tournament],
            ExtensionMajor::Ex7 => seq![Extension::Ex7Tiles, Extension::Ex7Siege],
            ExtensionMajor::Ex8 => seq![Extension::Ex8Tiles, Extension::Ex8Bridge, Extension::Ex8Castle, Extension::Ex8Barn],
            ExtensionMajor::Ex9 => seq![Extension::Ex9Tiles, Extension::Ex9Shepherd, Extension::Ex9Geese, Extension::Ex9Vineyard],
            ExtensionMajor::Ex10 => seq![Extension::Ex10Tiles, Extension::Ex10Bigtop, Extension::Ex10AdditionalMeeple, Extension::Ex10Ringmistress],
            ExtensionMajor::ExSmallBox => seq![Extension::ExFlyingMachine, Extension::ExMessenger, Extension::ExFerry, Extension::ExGoldMine, Extension::ExMagicianWitch, Extension::ExRobber, Extension::ExCropCircle],
    }
}

/// The module named by a key (expansion number, letter), if there is one.
pub open spec fn extension_of_key(key: (u8, char)) -> Option<Extension> {
    match key {
            (0, 'a') => Some(Extension::Ex0Garden),
            (0, 'b') => Some(Extension::Ex0River),
            (1, 'a') => Some(Extension::Ex1Tiles),
            (1, 'b') => Some(Extension::Ex1LargeMeeple),
            (1, 'c') => Some(Extension::Ex1Inn),
            (1, 'd') => Some(Extension::Ex1Cathedral),
            (2, 'a') => Some(Extension::Ex2Tiles),
            (2, 'b') => Some(Extension::Ex2Builder),
            (2, 'c') => Some(Extension::Ex2Pig),
            (2, 'd') => Some(Extension::Ex2Goods),
            (3, 'a') => Some(Extension::Ex3Tiles),
            (3, 'b') => Some(Extension::Ex3Dragon),
            (3, 'c') => Some(Extension::Ex3Fairy),
            (3, 'd') => Some(Extension::Ex3Portal),
            (4, 'a') => Some(Extension::Ex4Tiles),
            (4, 'b') => Some(Extension::Ex4TowerThief),
            (5, 'a') => Some(Extension::Ex5Tiles),
            (5, 'b') => Some(Extension::Ex5Townhall),
            (5, 'c') => Some(Extension::Ex5Mayor),
            (5, 'd') => Some(Extension::Ex5Messenger),
            (5, 'e') => Some(Extension::Ex5Scarecrow),
            (6, 'a') => Some(Extension::Ex6Tiles),
            (6, 'b') => Some(Extension::Ex6Tournament),
            (7, 'a') => Some(Extension::Ex7Tiles),
            (7, 'b') => Some(Extension::Ex7Siege),
            (8, 'a') => Some(Extension::Ex8Tiles),
            (8, 'b') => Some(Extension::Ex8Bridge),
            (8, 'c') => Some(Extension::Ex8Castle),
            (8, 'd') => Some(Extension::Ex8Barn),
            (9, 'a') => Some(Extension::Ex9Tiles),
            (9, 'b') => Some(Extension::Ex9Shepherd),
            (9, 'c') => Some(Extension::Ex9Geese),
            (9, 'd') => Some(Extension::Ex9Vineyard),
            (10, 'a') => Some(Extension::Ex10Tiles),
            (10, 'b') => Some(Extension::Ex10Bigtop),
            (10, 'c') => Some(Extension::Ex10AdditionalMeeple),
            (10, 'd') => Some(Extension::Ex10Ringmistress),
            (11, 'a') => Some(Extension::ExFlyingMachine),
            (11, 'b') => Some(Extension::ExMessenger),
            (11, 'c') => Some(Extension::ExFerry),
            (11, 'd') => Some(Extension::ExGoldMine),
            (11, 'e') => Some(Extension::ExMagicianWitch),
            (11, 'f') => Some(Extension::ExRobber),
            (11, 'g') => Some(Extension::ExCropCircle),
            _ => None,
    }
}

/// The rule modules of an expansion, in catalog order.
pub fn extension_group(major: ExtensionMajor) -> (r: Vec<Extension>)
    ensures
        r@ == group_of(major),
{
    match major {
            ExtensionMajor::Ex0 => vec![Extension::Ex0Garden, Extension::Ex0River],
            ExtensionMajor::Ex1 => vec![Extension::Ex1Tiles, Extension::Ex1LargeMeeple, Extension::Ex1Inn, Extension::Ex1Cathedral],
            ExtensionMajor::Ex2 => vec![Extension::Ex2Tiles, Extension::Ex2Builder, Extension::Ex2Pig, Extension::Ex2Goods],
            ExtensionMajor::Ex3 => vec![Extension::Ex3Tiles, Extension::Ex3Dragon, Extension::Ex3Fairy, Extension::Ex3Portal],
            ExtensionMajor::Ex4 => vec![Extension::Ex4Tiles, Extension::Ex4TowerThief],
            ExtensionMajor::Ex5 => vec![Extension::Ex5Tiles, Extension::Ex5Townhall, Extension::Ex5Mayor, Extension::Ex5Messenger, Extension::Ex5Scarecrow],
            ExtensionMajor::Ex6 => vec![Extension::Ex6Tiles, Extension::Ex6Tournament],
            ExtensionMajor::Ex7 => vec![Extension::Ex7Tiles, Extension::Ex7Siege],
            ExtensionMajor::Ex8 => vec![Extension::Ex8Tiles, Extension::Ex8Bridge, Extension::Ex8Castle, Extension::Ex8Barn],
            ExtensionMajor::Ex9 => vec![Extension::Ex9Tiles, Extension::Ex9Shepherd, Extension::Ex9Geese, Extension::Ex9Vineyard],
            ExtensionMajor::Ex10 => vec![Extension::Ex10Tiles, Extension::Ex10Bigtop, Extension::Ex10AdditionalMeeple, Extension::Ex10Ringmistress],
            ExtensionMajor::ExSmallBox => vec![Extension::ExFlyingMachine, Extension::ExMessenger, Extension::ExFerry, Extension::ExGoldMine, Extension::ExMagicianWitch, Extension::ExRobber, Extension::ExCropCircle],
    }
}

impl Extension {
    /// Key of the module: the number of its expansion and a letter for its
    /// place in that expansion.
    pub open spec fn spec_key(self) -> (u8, char) {
        match self {
            Extension::Ex0Garden => (0, 'a'),
            Extension::Ex0River => (0, 'b'),
            Extension::Ex1Tiles => (1, 'a'),
            Extension::Ex1LargeMeeple => (1, 'b'),
            Extension::Ex1Inn => (1, 'c'),
            Extension::Ex1Cathedral => (1, 'd'),
            Extension::Ex2Tiles => (2, 'a'),
            Extension::Ex2Builder => (2, 'b'),
            Extension::Ex2Pig => (2, 'c'),
            Extension::Ex2Goods => (2, 'd'),
            Extension::Ex3Tiles => (3, 'a'),
            Extension::Ex3Dragon => (3, 'b'),
            Extension::Ex3Fairy => (3, 'c'),
            Extension::Ex3Portal => (3, 'd'),
            Extension::Ex4Tiles => (4, 'a'),
            Extension::Ex4TowerThief => (4, 'b'),
            Extension::Ex5Tiles => (5, 'a'),
            Extension::Ex5Townhall => (5, 'b'),
            Extension::Ex5Mayor => (5, 'c'),
            Extension::Ex5Messenger => (5, 'd'),
            Extension::Ex5Scarecrow => (5, 'e'),
            Extension::Ex6Tiles => (6, 'a'),
            Extension::Ex6Tournament => (6, 'b'),
            Extension::Ex7Tiles => (7, 'a'),
            Extension::Ex7Siege => (7, 'b'),
            Extension::Ex8Tiles => (8, 'a'),
            Extension::Ex8Bridge => (8, 'b'),
            Extension::Ex8Castle => (8, 'c'),
            Extension::Ex8Barn => (8, 'd'),
            Extension::Ex9Tiles => (9, 'a'),
            Extension::Ex9Shepherd => (9, 'b'),
            Extension::Ex9Geese => (9, 'c'),
            Extension::Ex9Vineyard => (9, 'd'),
            Extension::Ex10Tiles => (10, 'a'),
            Extension::Ex10Bigtop => (10, 'b'),
            Extension::Ex10AdditionalMeeple => (10, 'c'),
            Extension::Ex10Ringmistress => (10, 'd'),
            Extension::ExFlyingMachine => (11, 'a'),
            Extension::ExMessenger => (11, 'b'),
            Extension::ExFerry => (11, 'c'),
            Extension::ExGoldMine => (11, 'd'),
            Extension::ExMagicianWitch => (11, 'e'),
            Extension::ExRobber => (11, 'f'),
            Extension::ExCropCircle => (11, 'g'),
        }
    }

    pub fn to_key(&self) -> (r: (u8, char))
        ensures
            r == self.spec_key(),
    {
        match self {
            Extension::Ex0Garden => (0, 'a'),
            Extension::Ex0River => (0, 'b'),
            Extension::Ex1Tiles => (1, 'a'),
            Extension::Ex1LargeMeeple => (1, 'b'),
            Extension::Ex1Inn => (1, 'c'),
            Extension::Ex1Cathedral => (1, 'd'),
            Extension::Ex2Tiles => (2, 'a'),
            Extension::Ex2Builder => (2, 'b'),
            Extension::Ex2Pig => (2, 'c'),
            Extension::Ex2Goods => (2, 'd'),
            Extension::Ex3Tiles => (3, 'a'),
            Extension::Ex3Dragon => (3, 'b'),
            Extension::Ex3Fairy => (3, 'c'),
            Extension::Ex3Portal => (3, 'd'),
            Extension::Ex4Tiles => (4, 'a'),
            Extension::Ex4TowerThief => (4, 'b'),
            Extension::Ex5Tiles => (5, 'a'),
            Extension::Ex5Townhall => (5, 'b'),
            Extension::Ex5Mayor => (5, 'c'),
            Extension::Ex5Messenger => (5, 'd'),
            Extension::Ex5Scarecrow => (5, 'e'),
            Extension::Ex6Tiles => (6, 'a'),
            Extension::Ex6Tournament => (6, 'b'),
            Extension::Ex7Tiles => (7, 'a'),
            Extension::Ex7Siege => (7, 'b'),
            Extension::Ex8Tiles => (8, 'a'),
            Extension::Ex8Bridge => (8, 'b'),
            Extension::Ex8Castle => (8, 'c'),
            Extension::Ex8Barn => (8, 'd'),
            Extension::Ex9Tiles => (9, 'a'),
            Extension::Ex9Shepherd => (9, 'b'),
            Extension::Ex9Geese => (9, 'c'),
            Extension::Ex9Vineyard => (9, 'd'),
            Extension::Ex10Tiles => (10, 'a'),
            Extension::Ex10Bigtop => (10, 'b'),
            Extension::Ex10AdditionalMeeple => (10, 'c'),
            Extension::Ex10Ringmistress => (10, 'd'),
            Extension::ExFlyingMachine => (11, 'a'),
            Extension::ExMessenger => (11, 'b'),
            Extension::ExFerry => (11, 'c'),
            Extension::ExGoldMine => (11, 'd'),
            Extension::ExMagicianWitch => (11, 'e'),
            Extension::ExRobber => (11, 'f'),
            Extension::ExCropCircle => (11, 'g'),
        }
    }
}

impl TryFrom<(u8, char)> for Extension {
    type Error = ();

    fn try_from(value: (u8, char)) -> (r: Result<Extension, ()>)
        ensures
            r == match extension_of_key(value) {
                Some(e) => Ok::<Extension, ()>(e),
                None => Err(()),
            },
    {
        match value {
            (0, 'a') => Ok(Extension::Ex0Garden),
            (0, 'b') => Ok(Extension::Ex0River),
            (1, 'a') => Ok(Extension::Ex1Tiles),
            (1, 'b') => Ok(Extension::Ex1LargeMeeple),
            (1, 'c') => Ok(Extension::Ex1Inn),
            (1, 'd') => Ok(Extension::Ex1Cathedral),
            (2, 'a') => Ok(Extension::Ex2Tiles),
            (2, 'b') => Ok(Extension::Ex2Builder),
            (2, 'c') => Ok(Extension::Ex2Pig),
            (2, 'd') => Ok(Extension::Ex2Goods),
            (3, 'a') => Ok(Extension::Ex3Tiles),
            (3, 'b') => Ok(Extension::Ex3Dragon),
            (3, 'c') => Ok(Extension::Ex3Fairy),
            (3, 'd') => Ok(Extension::Ex3Portal),
            (4, 'a') => Ok(Extension::Ex4Tiles),
            (4, 'b') => Ok(Extension::Ex4TowerThief),
            (5, 'a') => Ok(Extension::Ex5Tiles),
            (5, 'b') => Ok(Extension::Ex5Townhall),
            (5, 'c') => Ok(Extension::Ex5Mayor),
            (5, 'd') => Ok(Extension::Ex5Messenger),
            (5, 'e') => Ok(Extension::Ex5Scarecrow),
            (6, 'a') => Ok(Extension::Ex6Tiles),
            (6, 'b') => Ok(Extension::Ex6Tournament),
            (7, 'a') => Ok(Extension::Ex7Tiles),
            (7, 'b') => Ok(Extension::Ex7Siege),
            (8, 'a') => Ok(Extension::Ex8Tiles),
            (8, 'b') => Ok(Extension::Ex8Bridge),
            (8, 'c') => Ok(Extension::Ex8Castle),
            (8, 'd') => Ok(Extension::Ex8Barn),
            (9, 'a') => Ok(Extension::Ex9Tiles),
            (9, 'b') => Ok(Extension::Ex9Shepherd),
            (9, 'c') => Ok(Extension::Ex9Geese),
            (9, 'd') => Ok(Extension::Ex9Vineyard),
            (10, 'a') => Ok(Extension::Ex10Tiles),
            (10, 'b') => Ok(Extension::Ex10Bigtop),
            (10, 'c') => Ok(Extension::Ex10AdditionalMeeple),
            (10, 'd') => Ok(Extension::Ex10Ringmistress),
            (11, 'a') => Ok(Extension::ExFlyingMachine),
            (11, 'b') => Ok(Extension::ExMessenger),
            (11, 'c') => Ok(Extension::ExFerry),
            (11, 'd') => Ok(Extension::ExGoldMine),
            (11, 'e') => Ok(Extension::ExMagicianWitch),
            (11, 'f') => Ok(Extension::ExRobber),
            (11, 'g') => Ok(Extension::ExCropCircle),
            _ => Err(()),
        }
    }
}

impl vstd::std_specs::convert::TryFromSpecImpl<(u8, char)> for Extension {
    open spec fn obeys_try_from_spec() -> bool {
        true
    }

    open spec fn try_from_spec(v: (u8, char)) -> Result<Extension, ()> {
        match extension_of_key(v) {
            Some(e) => Ok(e),
            None => Err(()),
        }
    }
}

/// Each module has its own key, and its key names it.
pub proof fn lemma_key_names_extension(e: Extension)
    ensures
        extension_of_key(e.spec_key()) == Some(e),
{
}

/// A key names a module only if it is that module's key.
pub proof fn lemma_named_by_key(key: (u8, char))
    ensures
        extension_of_key(key) matches Some(e) ==> e.spec_key() == key,
{
}

broadcast use vstd::seq_lib::lemma_seq_contains_after_push, vstd::seq::Seq::lemma_push_to_set_commute;

/// The rule modules switched on for a game.
pub struct ExtensionState {
    pub enabled: Vec<Extension>,
}

impl View for ExtensionState {
    type V = Set<Extension>;

    open spec fn view(&self) -> Set<Extension> {
        self.enabled@.to_set()
    }
}

impl ExtensionState {
    pub fn enable_minor(&mut self, ext: Extension)
        ensures
            final(self)@ == old(self)@.insert(ext),
    {
        if !self.is_enabled(ext) {
            self.enabled.push(ext);
        }
        proof {
            assert(final(self)@ =~= old(self)@.insert(ext));
        }
    }

    pub fn disable_minor(&mut self, ext: Extension)
        ensures
            final(self)@ == old(self)@.remove(ext),
    {
        let mut kept: Vec<Extension> = Vec::new();
        let mut i: usize = 0;
        while i < self.enabled.len()
            invariant
                i <= self.enabled@.len(),
                forall|e: Extension|
                    kept@.contains(e) <==> (e != ext && self.enabled@.subrange(0, i as int).contains(e)),
            decreases self.enabled@.len() - i,
        {
            let e = self.enabled[i];
            assert(self.enabled@.subrange(0, i + 1) == self.enabled@.subrange(0, i as int).push(e));
            if e != ext {
                kept.push(e);
            }
            i = i + 1;
        }
        assert(self.enabled@.subrange(0, i as int) == self.enabled@);
        self.enabled = kept;
        proof {
            assert(final(self)@ =~= old(self)@.remove(ext));
        }
    }

    /// Switches on every module of the expansion.
    pub fn enable_major(&mut self, major: ExtensionMajor)
        ensures
            final(self)@ == old(self)@ + group_of(major).to_set(),
    {
        let exts = extension_group(major);
        let mut i: usize = 0;
        while i < exts.len()
            invariant
                i <= exts@.len(),
                exts@ == group_of(major),
                self@ == old(self)@ + exts@.subrange(0, i as int).to_set(),
            decreases exts@.len() - i,
        {
            self.enable_minor(exts[i]);
            assert(exts@.subrange(0, i + 1) == exts@.subrange(0, i as int).push(exts@[i as int]));
            assert(self@ =~= old(self)@ + exts@.subrange(0, i + 1).to_set());
            i = i + 1;
        }
        assert(exts@.subrange(0, i as int) == exts@);
    }

    /// Switches off every module of the expansion.
    pub fn disable_major(&mut self, major: ExtensionMajor)
        ensures
            final(self)@ == old(self)@ - group_of(major).to_set(),
    {
        let exts = extension_group(major);
        let mut i: usize = 0;
        while i < exts.len()
            invariant
                i <= exts@.len(),
                exts@ == group_of(major),
                self@ == old(self)@ - exts@.subrange(0, i as int).to_set(),
            decreases exts@.len() - i,
        {
            self.disable_minor(exts[i]);
            assert(exts@.subrange(0, i + 1) == exts@.subrange(0, i as int).push(exts@[i as int]));
            assert(self@ =~= old(self)@ - exts@.subrange(0, i + 1).to_set());
            i = i + 1;
        }
        assert(exts@.subrange(0, i as int) == exts@);
    }

    pub fn is_enabled(&self, ext: Extension) -> (r: bool)
        ensures
            r == self@.contains(ext),
    {
        let mut i: usize = 0;
        while i < self.enabled.len()
            invariant
                i <= self.enabled@.len(),
                forall|k: int| 0 <= k < i ==> self.enabled@[k] != ext,
            decreases self.enabled@.len() - i,
        {
            if self.enabled[i] == ext {
                assert(self.enabled@[i as int] == ext);
                return true;
            }
            i = i + 1;
        }
        false
    }

    /// Whether every module of the expansion is switched on.
    pub fn is_major_fully_enabled(&self, major: ExtensionMajor) -> (r: bool)
        ensures
            r == group_of(major).to_set().subset_of(self@),
    {
        let minors = extension_group(major);
        let mut i: usize = 0;
        while i < minors.len()
            invariant
                i <= minors@.len(),
                minors@ == group_of(major),
                forall|k: int| 0 <= k < i ==> self@.contains(#[trigger] minors@[k]),
            decreases minors@.len() - i,
        {
            if !self.is_enabled(minors[i]) {
                assert(minors@.to_set().contains(minors@[i as int]));
                return false;
            }
            i = i + 1;
        }
        proof {
            assert forall|e: Extension| minors@.to_set().contains(e) implies self@.contains(e) by {
                let k = choose|k: int| 0 <= k < minors@.len() && minors@[k] == e;
            }
        }
        true
    }
}

} // verus!
