//! Palettes by character: a library holds characters, each character holds
//! groups (skin, clothes, hair…), each group holds named colours (base,
//! light, shadow…).
use vstd::prelude::*;
use vstd::string::*;
use crate::color::Color;

verus! {

/// A colour with a free label (e.g. "base", "luz", "sombra").
pub struct NamedColor {
    pub label: String,
    pub color: Color,
}

pub struct NamedColorView {
    pub label: Seq<char>,
    pub color: Color,
}

impl View for NamedColor {
    type V = NamedColorView;

    open spec fn view(&self) -> NamedColorView {
        NamedColorView { label: self.label@, color: self.color }
    }
}

impl Clone for NamedColor {
    /// A copy with the same label and colour.
    fn clone(&self) -> (res: Self)
        ensures
            res@ == self@,
    {
        NamedColor { label: self.label.clone(), color: self.color }
    }
}

impl NamedColor {
    pub fn new(label: &str, color: Color) -> (c: Self)
        ensures
            c@ == (NamedColorView { label: label@, color }),
    {
        NamedColor { label: String::from_str(label), color }
    }
}

/// An area of the character (e.g. "Pele") and its colours.
pub struct PaletteGroup {
    pub name: String,
    pub colors: Vec<NamedColor>,
}

pub struct PaletteGroupView {
    pub name: Seq<char>,
    pub colors: Seq<NamedColorView>,
}

impl View for PaletteGroup {
    type V = PaletteGroupView;

    open spec fn view(&self) -> PaletteGroupView {
        PaletteGroupView { name: self.name@, colors: self.colors@.map_values(|c: NamedColor| c@) }
    }
}

impl Default for PaletteGroup {
    fn default() -> (g: Self)
        ensures
            g@ == (PaletteGroupView { name: Seq::empty(), colors: Seq::empty() }),
    {
        let g = PaletteGroup { name: String::new(), colors: Vec::new() };
        assert(g@.colors =~= Seq::<NamedColorView>::empty());
        g
    }
}

impl Clone for PaletteGroup {
    /// A copy with the same name and colours.
    fn clone(&self) -> (res: Self)
        ensures
            res@ == self@,
    {
        let colors = self.colors.clone();
        proof {
            assert forall|i: int| 0 <= i < colors@.len() implies colors@[i]@ == self.colors@[i]@ by {
                assert(cloned(self.colors@[i], colors@[i]));
            }
            assert(colors@.map_values(|c: NamedColor| c@) =~= self.colors@.map_values(|c: NamedColor| c@));
        }
        PaletteGroup { name: self.name.clone(), colors }
    }
}

impl PaletteGroup {
    /// An empty group.
    pub fn new(name: &str) -> (g: Self)
        ensures
            g@ == (PaletteGroupView { name: name@, colors: Seq::empty() }),
    {
        let g = PaletteGroup { name: String::from_str(name), colors: Vec::new() };
        assert(g@.colors =~= Seq::<NamedColorView>::empty());
        g
    }

    /// Adds a colour at the end of the group.
    pub fn add_color(&mut self, label: &str, color: Color)
        ensures
            final(self)@ == (PaletteGroupView {
                colors: old(self)@.colors.push(NamedColorView { label: label@, color }),
                ..old(self)@
            }),
    {
        self.colors.push(NamedColor::new(label, color));
        assert(self@.colors =~= old(self)@.colors.push(NamedColorView { label: label@, color }));
    }

    /// Removes the colour at `index`; an index out of range is ignored.
    pub fn remove_color(&mut self, index: usize)
        ensures
            final(self)@ == (PaletteGroupView {
                colors: if index < old(self)@.colors.len() {
                    old(self)@.colors.remove(index as int)
                } else {
                    old(self)@.colors
                },
                ..old(self)@
            }),
    {
        if index < self.colors.len() {
            self.colors.remove(index);
            assert(self@.colors =~= old(self)@.colors.remove(index as int));
        }
    }
}

/// All the areas and colours of one character.
pub struct CharacterPalette {
    pub name: String,
    pub groups: Vec<PaletteGroup>,
}

pub struct CharacterPaletteView {
    pub name: Seq<char>,
    pub groups: Seq<PaletteGroupView>,
}

impl View for CharacterPalette {
    type V = CharacterPaletteView;

    open spec fn view(&self) -> CharacterPaletteView {
        CharacterPaletteView { name: self.name@, groups: self.groups@.map_values(|g: PaletteGroup| g@) }
    }
}

impl Default for CharacterPalette {
    fn default() -> (p: Self)
        ensures
            p@ == (CharacterPaletteView { name: Seq::empty(), groups: Seq::empty() }),
    {
        let p = CharacterPalette { name: String::new(), groups: Vec::new() };
        assert(p@.groups =~= Seq::<PaletteGroupView>::empty());
        p
    }
}

impl Clone for CharacterPalette {
    /// A copy with the same name and groups.
    fn clone(&self) -> (res: Self)
        ensures
            res@ == self@,
    {
        let groups = self.groups.clone();
        proof {
            assert forall|i: int| 0 <= i < groups@.len() implies groups@[i]@ == self.groups@[i]@ by {
                assert(cloned(self.groups@[i], groups@[i]));
            }
            assert(groups@.map_values(|g: PaletteGroup| g@) =~= self.groups@.map_values(|g: PaletteGroup| g@));
        }
        CharacterPalette { name: self.name.clone(), groups }
    }
}

impl CharacterPalette {
    /// A character with no groups.
    pub fn new(name: &str) -> (p: Self)
        ensures
            p@ == (CharacterPaletteView { name: name@, groups: Seq::empty() }),
    {
        let p = CharacterPalette { name: String::from_str(name), groups: Vec::new() };
        assert(p@.groups =~= Seq::<PaletteGroupView>::empty());
        p
    }

    /// Adds an empty group at the end and returns its index.
    pub fn add_group(&mut self, name: &str) -> (i: usize)
        ensures
            final(self)@ == (CharacterPaletteView {
                groups: old(self)@.groups.push(PaletteGroupView { name: name@, colors: Seq::empty() }),
                ..old(self)@
            }),
            i == old(self)@.groups.len(),
    {
        self.groups.push(PaletteGroup::new(name));
        assert(self@.groups =~= old(self)@.groups.push(PaletteGroupView { name: name@, colors: Seq::empty() }));
        self.groups.len() - 1
    }

    /// Removes the group at `index`; an index out of range is ignored.
    pub fn remove_group(&mut self, index: usize)
        ensures
            final(self)@ == (CharacterPaletteView {
                groups: if index < old(self)@.groups.len() {
                    old(self)@.groups.remove(index as int)
                } else {
                    old(self)@.groups
                },
                ..old(self)@
            }),
    {
        if index < self.groups.len() {
            self.groups.remove(index);
            assert(self@.groups =~= old(self)@.groups.remove(index as int));
        }
    }
}

/// The reusable collection of characters (the palette library).
pub struct PaletteLibrary {
    pub characters: Vec<CharacterPalette>,
}

impl View for PaletteLibrary {
    type V = Seq<CharacterPaletteView>;

    open spec fn view(&self) -> Seq<CharacterPaletteView> {
        self.characters@.map_values(|c: CharacterPalette| c@)
    }
}

impl Default for PaletteLibrary {
    fn default() -> (l: Self)
        ensures
            l@ == Seq::<CharacterPaletteView>::empty(),
    {
        let l = PaletteLibrary { characters: Vec::new() };
        assert(l@ =~= Seq::<CharacterPaletteView>::empty());
        l
    }
}

impl Clone for PaletteLibrary {
    /// A copy with the same characters.
    fn clone(&self) -> (res: Self)
        ensures
            res@ == self@,
    {
        let characters = self.characters.clone();
        proof {
            assert forall|i: int| 0 <= i < characters@.len() implies characters@[i]@ == self.characters@[i]@ by {
                assert(cloned(self.characters@[i], characters@[i]));
            }
            assert(characters@.map_values(|c: CharacterPalette| c@) =~= self.characters@.map_values(
                |c: CharacterPalette| c@,
            ));
        }
        PaletteLibrary { characters }
    }
}

impl PaletteLibrary {
    /// An empty library.
    pub fn new() -> (l: Self)
        ensures
            l@ == Seq::<CharacterPaletteView>::empty(),
    {
        Self::default()
    }

    /// Adds a character with no groups at the end and returns its index.
    pub fn add_character(&mut self, name: &str) -> (i: usize)
        ensures
            final(self)@ == old(self)@.push(CharacterPaletteView { name: name@, groups: Seq::empty() }),
            i == old(self)@.len(),
    {
        self.characters.push(CharacterPalette::new(name));
        assert(self@ =~= old(self)@.push(CharacterPaletteView { name: name@, groups: Seq::empty() }));
        self.characters.len() - 1
    }

    /// Removes the character at `index`; an index out of range is ignored.
    pub fn remove_character(&mut self, index: usize)
        ensures
            final(self)@ == (if index < old(self)@.len() {
                old(self)@.remove(index as int)
            } else {
                old(self)@
            }),
    {
        if index < self.characters.len() {
            self.characters.remove(index);
            assert(self@ =~= old(self)@.remove(index as int));
        }
    }

    /// Removes the chosen character at `index` of the palette panel and
    /// gives the character chosen next: the first one, or none when none is
    /// left. An index out of range changes nothing and keeps the choice.
    pub fn remove_chosen_character(&mut self, index: usize) -> (chosen: Option<usize>)
        ensures
            final(self)@ == (if index < old(self)@.len() {
                old(self)@.remove(index as int)
            } else {
                old(self)@
            }),
            chosen == (if index >= old(self)@.len() {
                Some(index)
            } else if old(self)@.len() == 1 {
                None
            } else {
                Some(0usize)
            }),
    {
        if index >= self.characters.len() {
            return Some(index);
        }
        self.remove_character(index);
        assert(self@.len() == self.characters@.len());
        if self.characters.len() == 0 {
            None
        } else {
            Some(0)
        }
    }
}

} // verus!
