use vstd::prelude::*;

verus! {

/// Identifier that the server hands to a connected player.
pub type PlayerId = u64;

/// A display name plus an optional server-issued identifier that tells
/// display-equal names apart.
#[derive(Eq, PartialEq, Hash, Debug, Ord, PartialOrd)]
pub struct Username {
    pub name: String,
    pub unique_id: Option<String>,
}

impl Username {
    pub fn identifier(&self) -> (r: &Option<String>)
        ensures
            r == &self.unique_id,
    {
        &self.unique_id
    }

    pub fn set_identifier(&mut self, unique_id: String)
        ensures
            final(self).name == old(self).name,
            final(self).unique_id == Some(unique_id),
    {
        self.unique_id = Some(unique_id);
    }
}

/// `a` and `b` read the same: same name, same identifier.
pub open spec fn same_username(a: Username, b: Username) -> bool {
    &&& a.name@ == b.name@
    &&& match (a.unique_id, b.unique_id) {
        (Some(x), Some(y)) => x@ == y@,
        (None, None) => true,
        _ => false,
    }
}

impl Clone for Username {
    fn clone(&self) -> (r: Username)
        ensures
            same_username(r, *self),
    {
        let unique_id = match &self.unique_id {
            Some(id) => Some(id.clone()),
            None => None,
        };
        Username { name: self.name.clone(), unique_id }
    }
}

impl From<String> for Username {
    fn from(name: String) -> (r: Username)
        ensures
            r.name == name,
            r.unique_id is None,
    {
        Username { name, unique_id: None }
    }
}

impl vstd::std_specs::convert::FromSpecImpl<String> for Username {
    open spec fn obeys_from_spec() -> bool {
        true
    }

    open spec fn from_spec(name: String) -> Username {
        Username { name, unique_id: None }
    }
}


impl From<Username> for String {
    fn from(u: Username) -> (r: String)
        ensures
            r == u.name,
    {
        u.name
    }
}

impl vstd::std_specs::convert::FromSpecImpl<Username> for String {
    open spec fn obeys_from_spec() -> bool {
        true
    }

    open spec fn from_spec(u: Username) -> String {
        u.name
    }
}

impl Username {
    /// The display name, without the identifier.
    pub fn display_name(&self) -> (r: &str)
        ensures
            r@ == self.name@,
    {
        self.name.as_str()
    }
}

/// A canvas cell position.
#[derive(Debug, Copy, Clone, Eq, PartialEq, Structural, Hash)]
pub struct Coord(pub u16, pub u16);

pub open spec fn strictly_between(v: u16, a: u16, b: u16) -> bool {
    if a <= b {
        a < v && v < b
    } else {
        b < v && v < a
    }
}

impl Coord {
    /// Whether this cell lies strictly inside the rectangle spanned by `a`
    /// and `b`.
    pub fn within(&self, a: &Coord, b: &Coord) -> (r: bool)
        ensures
            r == (strictly_between(self.0, a.0, b.0) && strictly_between(self.1, a.1, b.1)),
    {
        let (lo_x, hi_x) = if a.0 <= b.0 {
            (a.0, b.0)
        } else {
            (b.0, a.0)
        };
        let (lo_y, hi_y) = if a.1 <= b.1 {
            (a.1, b.1)
        } else {
            (b.1, a.1)
        };
        lo_x < self.0 && self.0 < hi_x && lo_y < self.1 && self.1 < hi_y
    }
}

/// The cells that Bresenham's algorithm touches from `(x0, y0)` to `(x1, y1)`,
/// in traversal order.
pub uninterp spec fn bresenham_cells(x0: u16, y0: u16, x1: u16, y1: u16) -> Seq<(u16, u16)>;

/// Relies on line_drawing::Bresenham: it yields the start first, and both
/// the start and the end point lie on the line. Coordinates pass through
/// `i32`, where every difference of two `u16` values fits.
#[verifier::external_body]
fn bresenham(x0: u16, y0: u16, x1: u16, y1: u16) -> (r: Vec<(u16, u16)>)
    ensures
        r@ == bresenham_cells(x0, y0, x1, y1),
        r@.len() > 0,
        r@[0] == (x0, y0),
        r@.contains((x1, y1)),
{
    line_drawing::Bresenham::new((x0 as i32, y0 as i32), (x1 as i32, y1 as i32)).map(
        |p: (i32, i32)| (p.0 as u16, p.1 as u16),
    ).collect()
}

/// A stroke on the canvas.
#[derive(Debug, Copy, Clone, PartialEq, Eq, Structural)]
pub struct Line {
    pub start: Coord,
    pub end: Coord,
    pub color: CanvasColor,
}

pub open spec fn cell_coord(c: (u16, u16)) -> Coord {
    Coord(c.0, c.1)
}

/// The cells of a line, as Bresenham's algorithm rasterises it.
pub open spec fn line_cells(l: Line) -> Seq<Coord> {
    bresenham_cells(l.start.0, l.start.1, l.end.0, l.end.1).map_values(|c: (u16, u16)| cell_coord(c))
}

impl Line {
    pub fn new(start: Coord, end: Coord, color: CanvasColor) -> (r: Line)
        ensures
            r == (Line { start, end, color }),
    {
        Line { start, end, color }
    }

    /// The cells this line covers. The result depends on the line alone, and
    /// holds both end points, the start first.
    pub fn coords_in(&self) -> (r: Vec<Coord>)
        ensures
            r@ == line_cells(*self),
            r@.len() > 0,
            r@[0] == self.start,
            r@.contains(self.start),
            r@.contains(self.end),
    {
        let cells = bresenham(self.start.0, self.start.1, self.end.0, self.end.1);
        let ghost end_cell = (self.end.0, self.end.1);
        let ghost k = cells@.index_of(end_cell);
        let mut out: Vec<Coord> = Vec::new();
        let mut i: usize = 0;
        while i < cells.len()
            invariant
                i <= cells.len(),
                out@ == cells@.subrange(0, i as int).map_values(|c: (u16, u16)| cell_coord(c)),
            decreases cells.len() - i,
        {
            let c = cells[i];
            out.push(Coord(c.0, c.1));
            proof {
                assert(cells@.subrange(0, i + 1) =~= cells@.subrange(0, i as int).push(c));
            }
            i += 1;
        }
        proof {
            assert(cells@.subrange(0, cells@.len() as int) =~= cells@);
            let kk = choose|kk: int| 0 <= kk < cells@.len() && cells@[kk] == end_cell;
            assert(out@[kk] == self.end);
            assert(out@[0] == self.start);
        }
        out
    }
}

/// A chat line: either from the system or from a user.
#[derive(Debug)]
pub enum Message {
    SystemMsg(String),
    UserMsg(Username, String),
}

pub open spec fn message_text(m: Message) -> Seq<char> {
    match m {
        Message::SystemMsg(t) => t@,
        Message::UserMsg(_, t) => t@,
    }
}

impl Clone for Message {
    fn clone(&self) -> (r: Message)
        ensures
            message_text(r) == message_text(*self),
            (r is SystemMsg) == (self is SystemMsg),
    {
        match self {
            Message::SystemMsg(t) => Message::SystemMsg(t.clone()),
            Message::UserMsg(u, t) => Message::UserMsg(u.clone(), t.clone()),
        }
    }
}

impl Message {
    pub fn text(&self) -> (r: &str)
        ensures
            r@ == message_text(*self),
    {
        match self {
            Message::SystemMsg(msg) => msg.as_str(),
            Message::UserMsg(_, msg) => msg.as_str(),
        }
    }

    pub fn is_system(&self) -> (r: bool)
        ensures
            r == (self is SystemMsg),
    {
        match self {
            Message::SystemMsg(_) => true,
            _ => false,
        }
    }

    pub fn username(&self) -> (r: Option<&Username>)
        ensures
            match *self {
                Message::UserMsg(u, _) => r == Some(&u),
                Message::SystemMsg(_) => r is None,
            },
    {
        match self {
            Message::UserMsg(username, _) => Some(username),
            _ => None,
        }
    }
}

/// The colours a line can be drawn in.
#[derive(Debug, Copy, Clone, PartialEq, Eq, Structural, Hash)]
pub enum CanvasColor {
    White,
    Gray,
    DarkGray,
    Black,
    Red,
    LightRed,
    Green,
    LightGreen,
    Blue,
    LightBlue,
    Yellow,
    LightYellow,
    Cyan,
    LightCyan,
    Magenta,
    LightMagenta,
}

impl Default for CanvasColor {
    fn default() -> (r: CanvasColor)
        ensures
            r == CanvasColor::White,
    {
        CanvasColor::White
    }
}

/// The palette offered for swatch selection, in its fixed order.
pub open spec fn palette_spec() -> Seq<CanvasColor> {
    seq![
        CanvasColor::White,
        CanvasColor::Gray,
        CanvasColor::DarkGray,
        CanvasColor::Black,
        CanvasColor::Red,
        CanvasColor::LightRed,
        CanvasColor::Green,
        CanvasColor::LightGreen,
        CanvasColor::Blue,
        CanvasColor::LightBlue,
        CanvasColor::Yellow,
        CanvasColor::LightYellow,
        CanvasColor::Cyan,
        CanvasColor::LightCyan,
        CanvasColor::Magenta,
        CanvasColor::LightMagenta,
    ]
}

pub fn palette() -> (r: Vec<CanvasColor>)
    ensures
        r@ == palette_spec(),
{
    let r = vec![
        CanvasColor::White,
        CanvasColor::Gray,
        CanvasColor::DarkGray,
        CanvasColor::Black,
        CanvasColor::Red,
        CanvasColor::LightRed,
        CanvasColor::Green,
        CanvasColor::LightGreen,
        CanvasColor::Blue,
        CanvasColor::LightBlue,
        CanvasColor::Yellow,
        CanvasColor::LightYellow,
        CanvasColor::Cyan,
        CanvasColor::LightCyan,
        CanvasColor::Magenta,
        CanvasColor::LightMagenta,
    ];
    assert(r@ =~= palette_spec());
    r
}

/// Commands a client may send; none is acted upon yet.
#[derive(Debug, Clone)]
pub enum CommandMsg {
    KickPlayer(Username),
}

/// A drawing action.
#[derive(Debug, Clone, Copy, PartialEq, Eq, Structural)]
pub enum Draw {
    Clear,
    ChangeColor(CanvasColor),
    Line(Line),
}

} // verus!
