use vstd::prelude::*;

verus! {

/// Where an adventurer faces.
#[derive(PartialEq, Eq, Structural, Debug, Clone, Copy)]
pub enum Orientation {
    North,
    East,
    South,
    West,
}

/// Whether `c` is one of the four orientation symbols `N`, `S`, `E`, `O`.
pub open spec fn is_orientation_symbol(c: char) -> bool {
    c == 'N' || c == 'S' || c == 'E' || c == 'O'
}

/// The orientation that a symbol stands for.
pub open spec fn orientation_of(c: char) -> Orientation
    recommends
        is_orientation_symbol(c),
{
    if c == 'N' {
        Orientation::North
    } else if c == 'S' {
        Orientation::South
    } else if c == 'E' {
        Orientation::East
    } else {
        Orientation::West
    }
}

/// The one-letter symbol of an orientation (West is written `O`).
pub open spec fn symbol_of(o: Orientation) -> Seq<char> {
    match o {
        Orientation::North => seq!['N'],
        Orientation::South => seq!['S'],
        Orientation::East => seq!['E'],
        Orientation::West => seq!['O'],
    }
}

impl Orientation {
    /// Decodes an orientation symbol; any other character is a fatal input error.
    pub fn from_char(raw_value: char) -> (r: Orientation)
        requires
            is_orientation_symbol(raw_value),
        ensures
            r == orientation_of(raw_value),
            symbol_of(r) == seq![raw_value],
    {
        if raw_value == 'N' {
            Orientation::North
        } else if raw_value == 'S' {
            Orientation::South
        } else if raw_value == 'E' {
            Orientation::East
        } else {
            Orientation::West
        }
    }

    /// Encodes an orientation as its symbol.
    pub fn from(orientation: Orientation) -> (r: String)
        ensures
            r@ == symbol_of(orientation),
    {
        let s = match orientation {
            Orientation::North => "N",
            Orientation::South => "S",
            Orientation::West => "O",
            Orientation::East => "E",
        };
        proof {
            reveal_strlit("N");
            reveal_strlit("S");
            reveal_strlit("O");
            reveal_strlit("E");
        }
        s.to_owned()
    }
}

/// An empty cell of the grid.
#[derive(PartialEq, Eq, Debug, Clone, Copy)]
pub struct Empty {
    pub position: (usize, usize),
}

impl Empty {
    pub fn new(x: usize, y: usize) -> (r: Self)
        ensures
            r.position == (x, y),
    {
        Self { position: (x, y) }
    }
}

/// The size marker of the board: `position` holds `(rows, cols)`.
#[derive(PartialEq, Eq, Debug, Clone, Copy)]
pub struct RawMap {
    pub position: (usize, usize),
}

impl RawMap {
    pub fn new(x: usize, y: usize) -> (r: Self)
        ensures
            r.position == (x, y),
    {
        Self { position: (x, y) }
    }
}

/// A mountain: no adventurer may step onto it.
#[derive(PartialEq, Eq, Debug, Clone, Copy)]
pub struct RawMountain {
    pub position: (usize, usize),
}

impl RawMountain {
    pub fn new(x: usize, y: usize) -> (r: Self)
        ensures
            r.position == (x, y),
    {
        Self { position: (x, y) }
    }
}

/// A treasure cell holding `nb_treasure` pieces.
#[derive(PartialEq, Eq, Debug, Clone, Copy)]
pub struct RawTreasure {
    pub position: (usize, usize),
    pub nb_treasure: usize,
}

impl RawTreasure {
    pub fn new(x: usize, y: usize, nb_treasure: usize) -> (r: Self)
        ensures
            r.position == (x, y),
            r.nb_treasure == nb_treasure,
    {
        Self { position: (x, y), nb_treasure }
    }
}

/// The abstract state of an adventurer.
pub struct AdventurerView {
    pub name: Seq<char>,
    pub position: (int, int),
    pub orientation: Orientation,
    pub pattern: Seq<char>,
    pub treasure: nat,
}

/// An adventurer: where it stands, where it faces, the commands it has left
/// and how many treasures it has picked up.
#[derive(PartialEq, Debug)]
pub struct RawAdventurer {
    pub name: String,
    pub position: (usize, usize),
    pub orientation: Orientation,
    pub pattern: String,
    pub treasure: usize,
}

impl Clone for RawAdventurer {
    fn clone(&self) -> (r: Self)
        ensures
            r == *self,
    {
        RawAdventurer {
            name: self.name.clone(),
            position: self.position,
            orientation: self.orientation,
            pattern: self.pattern.clone(),
            treasure: self.treasure,
        }
    }
}

impl View for RawAdventurer {
    type V = AdventurerView;

    open spec fn view(&self) -> AdventurerView {
        AdventurerView {
            name: self.name@,
            position: (self.position.0 as int, self.position.1 as int),
            orientation: self.orientation,
            pattern: self.pattern@,
            treasure: self.treasure as nat,
        }
    }
}

impl RawAdventurer {
    /// A new adventurer, with no treasure yet.
    pub fn new(name: String, x: usize, y: usize, orientation: Orientation, pattern: String) -> (r:
        Self)
        ensures
            r@ == (AdventurerView {
                name: name@,
                position: (x as int, y as int),
                orientation,
                pattern: pattern@,
                treasure: 0,
            }),
    {
        Self { name, position: (x, y), orientation, pattern, treasure: 0 }
    }

    /// The same adventurer moved by `(dx, dy)`.
    pub fn update_position(&self, dx: isize, dy: isize) -> (r: RawAdventurer)
        requires
            0 <= self.position.0 + dx <= usize::MAX,
            0 <= self.position.1 + dy <= usize::MAX,
        ensures
            r@ == (AdventurerView {
                position: (self@.position.0 + dx, self@.position.1 + dy),
                ..self@
            }),
            r.name == self.name,
            r.pattern == self.pattern,
    {
        RawAdventurer {
            name: self.name.clone(),
            position: (shift(self.position.0, dx), shift(self.position.1, dy)),
            orientation: self.orientation,
            pattern: self.pattern.clone(),
            treasure: self.treasure,
        }
    }

    /// The same adventurer with one more treasure.
    pub fn update_treasure(&self) -> (r: RawAdventurer)
        requires
            self.treasure < usize::MAX,
        ensures
            r@ == (AdventurerView { treasure: self@.treasure + 1, ..self@ }),
            r.name == self.name,
            r.pattern == self.pattern,
    {
        RawAdventurer {
            name: self.name.clone(),
            position: self.position,
            orientation: self.orientation,
            pattern: self.pattern.clone(),
            treasure: self.treasure + 1,
        }
    }

    /// The symbol of the adventurer's orientation.
    pub fn get_orientation_to_string(&self) -> (r: String)
        ensures
            r@ == symbol_of(self.orientation),
    {
        Orientation::from(self.orientation)
    }
}

/// `v + d`, where the sum is known to be a `usize`.
fn shift(v: usize, d: isize) -> (r: usize)
    requires
        0 <= v + d <= usize::MAX,
    ensures
        r == v + d,
{
    if d >= 0 {
        v + d as usize
    } else {
        let back: usize = (-(d + 1)) as usize + 1;
        v - back
    }
}

/// Anything that can stand in the entity collection of a board.
#[derive(PartialEq, Debug, Clone)]
pub enum Element {
    RawMap(RawMap),
    RawMountain(RawMountain),
    RawTreasure(RawTreasure),
    RawAdventurer(RawAdventurer),
    Empty(Empty),
}

impl Element {
    /// The position that every kind of element carries.
    pub open spec fn spec_position(&self) -> (usize, usize) {
        match self {
            Element::Empty(empty) => empty.position,
            Element::RawMap(map) => map.position,
            Element::RawMountain(mountain) => mountain.position,
            Element::RawTreasure(treasure) => treasure.position,
            Element::RawAdventurer(adventurer) => adventurer.position,
        }
    }

    pub fn position(&self) -> (r: Option<(usize, usize)>)
        ensures
            r == Some(self.spec_position()),
    {
        match self {
            Element::Empty(empty) => Some(empty.position),
            Element::RawMap(map) => Some(map.position),
            Element::RawMountain(mountain) => Some(mountain.position),
            Element::RawTreasure(treasure) => Some(treasure.position),
            Element::RawAdventurer(adventurer) => Some(adventurer.position),
        }
    }
}

} // verus!
