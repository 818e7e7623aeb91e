//! The glyphs of the interface, and how large they are drawn.

use vstd::prelude::*;

verus! {

/// Every glyph that is drawn.
#[derive(Clone, Copy, Debug, PartialEq, Eq, Structural)]
pub enum Icon {
    Terminal,
    Host,
    FolderUp,
    Home,
    Refresh,
    Group,
    Settings,
    Help,
    SplitHorizontal,
    SplitVertical,
    ClosePane,
    Restart,
    Search,
    Plus,
    ChevronLeft,
    ChevronRight,
    NewFolder,
    File,
    Close,
    Maximize,
    Restore,
    Minimize,
    /// A directory in a file listing.
    Folder,
    FileText,
    FileCode,
    FileImage,
    FileArchive,
    FileMedia,
    FileBinary,
}

/// The sizes that the interface asks for. The stroke thins as the glyph
/// shrinks, so that a small icon does not turn into a blob.
#[derive(Clone, Copy, Debug, PartialEq, Eq, Structural)]
pub enum Size {
    /// Inline with a text row.
    Row,
    /// A standalone button.
    Button,
    /// In the window chrome, where buttons are widest.
    Title,
}

impl Size {
    /// The side of the glyph's box, in points.
    pub fn extent(self) -> (out: u32)
        ensures
            out == (match self {
                Size::Row => 15u32,
                Size::Button => 16u32,
                Size::Title => 13u32,
            }),
    {
        match self {
            Size::Row => 15,
            Size::Button => 16,
            Size::Title => 13,
        }
    }

    /// The width of the stroke, in hundredths of a point.
    pub fn stroke(self) -> (out: u32)
        ensures
            out == (match self {
                Size::Row => 120u32,
                Size::Button => 130u32,
                Size::Title => 125u32,
            }),
    {
        match self {
            Size::Row => 120,
            Size::Button => 130,
            Size::Title => 125,
        }
    }

    /// The width and the height of the box that a button of this size takes, in
    /// points.
    pub fn button(self) -> (out: (u32, u32))
        ensures
            out == (match self {
                Size::Row => (20u32, 18u32),
                Size::Button => (24u32, 20u32),
                Size::Title => (32u32, 20u32),
            }),
    {
        match self {
            Size::Row => (20, 18),
            Size::Button => (24, 20),
            Size::Title => (32, 20),
        }
    }
}

/// A stroke or a shape of a glyph. Positions are in hundredths of half the side
/// of the glyph's box, from its middle; angles are in tenths of a radian.
#[derive(Clone, Copy, Debug, PartialEq, Eq)]
pub enum Mark {
    Line { from: (i32, i32), to: (i32, i32) },
    /// The outline of a rectangle.
    Frame { min: (i32, i32), max: (i32, i32) },
    /// A filled rectangle.
    Block { min: (i32, i32), max: (i32, i32) },
    /// A circle around the middle.
    Ring { radius: i32 },
    /// A part of such a circle.
    Arc { radius: i32, begin: i32, end: i32 },
    /// Half of an arrowhead: a line from a point of such a circle.
    Barb { radius: i32, angle: i32, by: (i32, i32) },
    /// Lines from one such circle to another, evenly spread.
    Spokes { count: u32, inner: i32, outer: i32 },
    /// A filled dot, as wide as so many hundredths of the stroke, and no
    /// smaller than so many hundredths of a point.
    Dot { at: (i32, i32), size: u32, least: u32 },
}

/// A line between two points.
pub open spec fn line_of(x0: int, y0: int, x1: int, y1: int) -> Mark {
    Mark::Line { from: (x0 as i32, y0 as i32), to: (x1 as i32, y1 as i32) }
}

/// The outline of a rectangle.
pub open spec fn frame_of(x0: int, y0: int, x1: int, y1: int) -> Mark {
    Mark::Frame { min: (x0 as i32, y0 as i32), max: (x1 as i32, y1 as i32) }
}

/// A filled rectangle.
pub open spec fn block_of(x0: int, y0: int, x1: int, y1: int) -> Mark {
    Mark::Block { min: (x0 as i32, y0 as i32), max: (x1 as i32, y1 as i32) }
}

/// A part of a circle around the middle.
pub open spec fn arc_of(radius: i32, begin: int, end: int) -> Mark {
    Mark::Arc { radius, begin: begin as i32, end: end as i32 }
}

/// Half of an arrowhead.
pub open spec fn barb_of(radius: i32, angle: i32, dx: int, dy: int) -> Mark {
    Mark::Barb { radius, angle, by: (dx as i32, dy as i32) }
}

/// A folder: its body, with the tab that makes it read as one.
pub open spec fn folder_marks() -> Seq<Mark> {
    seq![
        line_of(-100, 70, -100, -70),
        line_of(-100, -70, -35, -70),
        line_of(-35, -70, -5, -35),
        line_of(-5, -35, 100, -35),
        line_of(100, -35, 100, 70),
        line_of(-100, 70, 100, 70),
    ]
}

/// A page with a folded corner, from which every file glyph starts.
pub open spec fn page_marks() -> Seq<Mark> {
    seq![
        line_of(-70, -100, 35, -100),
        line_of(35, -100, 80, -55),
        line_of(80, -55, 80, 100),
        line_of(80, 100, -70, 100),
        line_of(-70, 100, -70, -100),
        line_of(35, -100, 35, -55),
        line_of(35, -55, 80, -55),
    ]
}

/// The marks of a glyph, in the order in which they are drawn.
pub open spec fn marks_of(icon: Icon) -> Seq<Mark> {
    match icon {
        Icon::Terminal => seq![
            frame_of(-100, -85, 100, 85),
            line_of(-55, -25, -10, 5),
            line_of(-10, 5, -55, 35),
            line_of(10, 40, 60, 40),
        ],
        Icon::Host => seq![
            frame_of(-100, -80, 100, 35),
            line_of(0, 35, 0, 70),
            line_of(-45, 80, 45, 80),
        ],
        Icon::FolderUp => folder_marks() + seq![
            line_of(0, 45, 0, -5),
            line_of(0, -15, -22, -37),
            line_of(0, -15, 22, -37),
        ],
        Icon::NewFolder => folder_marks() + seq![
            line_of(0, 45, 0, 0),
            line_of(-22, 22, 22, 22),
        ],
        Icon::Home => seq![
            line_of(-100, -45, -15, -100),
            line_of(-15, -100, 100, -45),
            line_of(-70, -50, -70, 85),
            line_of(70, -50, 70, 85),
            line_of(-70, 85, 70, 85),
        ],
        Icon::Refresh => seq![
            arc_of(80, -24, 19),
            barb_of(80, 19, -34, -24),
            barb_of(80, 19, 6, -42),
        ],
        Icon::Group => seq![
            frame_of(-100, -75, 45, 75),
            frame_of(-45, -35, 100, 100),
        ],
        Icon::Settings => seq![
            Mark::Ring { radius: 45 },
            Mark::Spokes { count: 6, inner: 50, outer: 95 },
        ],
        Icon::Help => seq![
            Mark::Ring { radius: 90 },
            line_of(0, -25, 0, 15),
            Mark::Dot { at: (0, 45), size: 90, least: 100 },
        ],
        Icon::SplitHorizontal => seq![
            frame_of(-100, -80, 100, 80),
            line_of(0, -80, 0, 80),
        ],
        Icon::SplitVertical => seq![
            frame_of(-100, -80, 100, 80),
            line_of(-100, 0, 100, 0),
        ],
        Icon::ClosePane => seq![
            frame_of(-100, -80, 100, 80),
            line_of(-45, -35, 5, 35),
            line_of(5, -35, -45, 35),
        ],
        Icon::Restart => seq![
            arc_of(85, -19, 19),
            line_of(0, -105, 0, -20),
        ],
        Icon::Search => seq![
            Mark::Ring { radius: 60 },
            line_of(45, 45, 95, 95),
        ],
        Icon::Plus => seq![
            line_of(-70, 0, 70, 0),
            line_of(0, -70, 0, 70),
        ],
        Icon::ChevronLeft => seq![
            line_of(35, -70, -35, 0),
            line_of(-35, 0, 35, 70),
        ],
        Icon::ChevronRight => seq![
            line_of(-35, -70, 35, 0),
            line_of(35, 0, -35, 70),
        ],
        Icon::Folder => folder_marks(),
        Icon::File => page_marks(),
        Icon::FileText => page_marks() + seq![
            line_of(-45, 15, 60, 15),
            line_of(-45, 50, 60, 50),
            line_of(-45, 85, 60, 85),
        ],
        Icon::FileCode => page_marks() + seq![
            line_of(-10, 20, -50, 50),
            line_of(-50, 50, -10, 80),
            line_of(25, 20, 65, 50),
            line_of(65, 50, 25, 80),
        ],
        Icon::FileImage => page_marks() + seq![
            line_of(-45, 85, -5, 35),
            line_of(-5, 35, 20, 65),
            line_of(20, 65, 40, 45),
            line_of(40, 45, 65, 85),
            Mark::Dot { at: (35, 15), size: 70, least: 80 },
        ],
        Icon::FileArchive => page_marks() + seq![
            line_of(0, 10, 30, 10),
            line_of(0, 45, 30, 45),
            line_of(0, 80, 30, 80),
            line_of(15, 10, 15, 45),
            line_of(15, 45, 15, 80),
        ],
        Icon::FileMedia => page_marks() + seq![
            line_of(-20, 20, 40, 50),
            line_of(40, 50, -20, 80),
            line_of(-20, 80, -20, 20),
        ],
        Icon::FileBinary => page_marks() + seq![
            block_of(-25, 25, 35, 85),
        ],
        Icon::Close => seq![
            line_of(-50, -50, 50, 50),
            line_of(50, -50, -50, 50),
        ],
        Icon::Minimize => seq![
            line_of(-45, 0, 45, 0),
        ],
        Icon::Maximize => seq![
            frame_of(-45, -45, 45, 45),
        ],
        Icon::Restore => seq![
            line_of(-50, -50, 5, -50),
            line_of(-50, -50, -50, 5),
            frame_of(-5, -5, 50, 50),
        ],
    }
}

fn line(list: &mut Vec<Mark>, x0: i32, y0: i32, x1: i32, y1: i32)
    ensures
        final(list)@ == old(list)@.push(line_of(x0 as int, y0 as int, x1 as int, y1 as int)),
{
    list.push(Mark::Line { from: (x0, y0), to: (x1, y1) });
}

fn frame(list: &mut Vec<Mark>, x0: i32, y0: i32, x1: i32, y1: i32)
    ensures
        final(list)@ == old(list)@.push(frame_of(x0 as int, y0 as int, x1 as int, y1 as int)),
{
    list.push(Mark::Frame { min: (x0, y0), max: (x1, y1) });
}

fn folder() -> (out: Vec<Mark>)
    ensures
        out@ == folder_marks(),
{
    let mut out: Vec<Mark> = Vec::new();
    line(&mut out, -100, 70, -100, -70);
    line(&mut out, -100, -70, -35, -70);
    line(&mut out, -35, -70, -5, -35);
    line(&mut out, -5, -35, 100, -35);
    line(&mut out, 100, -35, 100, 70);
    line(&mut out, -100, 70, 100, 70);
    assert(out@ =~= folder_marks());
    out
}

fn page() -> (out: Vec<Mark>)
    ensures
        out@ == page_marks(),
{
    let mut out: Vec<Mark> = Vec::new();
    line(&mut out, -70, -100, 35, -100);
    line(&mut out, 35, -100, 80, -55);
    line(&mut out, 80, -55, 80, 100);
    line(&mut out, 80, 100, -70, 100);
    line(&mut out, -70, 100, -70, -100);
    line(&mut out, 35, -100, 35, -55);
    line(&mut out, 35, -55, 80, -55);
    assert(out@ =~= page_marks());
    out
}

/// A folder, and what it is marked with.
fn folders_glyph(icon: Icon) -> (out: Vec<Mark>)
    requires
        icon == Icon::FolderUp || icon == Icon::NewFolder || icon == Icon::Folder,
    ensures
        out@ == marks_of(icon),
{
    let mut out: Vec<Mark> = folder();
    match icon {
        Icon::FolderUp => {
            line(&mut out, 0, 45, 0, -5);
            line(&mut out, 0, -15, -22, -37);
            line(&mut out, 0, -15, 22, -37);
        },
        Icon::NewFolder => {
            line(&mut out, 0, 45, 0, 0);
            line(&mut out, -22, 22, 22, 22);
        },
        _ => {},
    }
    assert(out@ =~= marks_of(icon));
    out
}

/// A page, and what says of which kind it is.
fn files_glyph(icon: Icon) -> (out: Vec<Mark>)
    requires
        icon == Icon::File || icon == Icon::FileText || icon == Icon::FileCode || icon == Icon::FileImage || icon == Icon::FileArchive || icon == Icon::FileMedia || icon == Icon::FileBinary,
    ensures
        out@ == marks_of(icon),
{
    let mut out: Vec<Mark> = page();
    match icon {
        Icon::FileText => {
            line(&mut out, -45, 15, 60, 15);
            line(&mut out, -45, 50, 60, 50);
            line(&mut out, -45, 85, 60, 85);
        },
        Icon::FileCode => {
            line(&mut out, -10, 20, -50, 50);
            line(&mut out, -50, 50, -10, 80);
            line(&mut out, 25, 20, 65, 50);
            line(&mut out, 65, 50, 25, 80);
        },
        Icon::FileImage => {
            line(&mut out, -45, 85, -5, 35);
            line(&mut out, -5, 35, 20, 65);
            line(&mut out, 20, 65, 40, 45);
            line(&mut out, 40, 45, 65, 85);
            out.push(Mark::Dot { at: (35, 15), size: 70, least: 80 });
        },
        Icon::FileArchive => {
            line(&mut out, 0, 10, 30, 10);
            line(&mut out, 0, 45, 30, 45);
            line(&mut out, 0, 80, 30, 80);
            line(&mut out, 15, 10, 15, 45);
            line(&mut out, 15, 45, 15, 80);
        },
        Icon::FileMedia => {
            line(&mut out, -20, 20, 40, 50);
            line(&mut out, 40, 50, -20, 80);
            line(&mut out, -20, 80, -20, 20);
        },
        Icon::FileBinary => {
            out.push(Mark::Block { min: (-25, 25), max: (35, 85) });
        },
        _ => {},
    }
    assert(out@ =~= marks_of(icon));
    out
}

/// The buttons of the window.
fn window_glyph(icon: Icon) -> (out: Vec<Mark>)
    requires
        icon == Icon::Close || icon == Icon::Minimize || icon == Icon::Maximize || icon == Icon::Restore,
    ensures
        out@ == marks_of(icon),
{
    let mut out: Vec<Mark> = Vec::new();
    match icon {
        Icon::Close => {
            line(&mut out, -50, -50, 50, 50);
            line(&mut out, 50, -50, -50, 50);
        },
        Icon::Minimize => {
            line(&mut out, -45, 0, 45, 0);
        },
        Icon::Maximize => {
            frame(&mut out, -45, -45, 45, 45);
        },
        Icon::Restore => {
            line(&mut out, -50, -50, 5, -50);
            line(&mut out, -50, -50, -50, 5);
            frame(&mut out, -5, -5, 50, 50);
        },
        _ => {},
    }
    assert(out@ =~= marks_of(icon));
    out
}

/// Windows and machines.
fn panes_glyph(icon: Icon) -> (out: Vec<Mark>)
    requires
        icon == Icon::Terminal || icon == Icon::Host || icon == Icon::Group || icon == Icon::SplitHorizontal || icon == Icon::SplitVertical || icon == Icon::ClosePane,
    ensures
        out@ == marks_of(icon),
{
    let mut out: Vec<Mark> = Vec::new();
    match icon {
        Icon::Terminal => {
            frame(&mut out, -100, -85, 100, 85);
            line(&mut out, -55, -25, -10, 5);
            line(&mut out, -10, 5, -55, 35);
            line(&mut out, 10, 40, 60, 40);
        },
        Icon::Host => {
            frame(&mut out, -100, -80, 100, 35);
            line(&mut out, 0, 35, 0, 70);
            line(&mut out, -45, 80, 45, 80);
        },
        Icon::Group => {
            frame(&mut out, -100, -75, 45, 75);
            frame(&mut out, -45, -35, 100, 100);
        },
        Icon::SplitHorizontal => {
            frame(&mut out, -100, -80, 100, 80);
            line(&mut out, 0, -80, 0, 80);
        },
        Icon::SplitVertical => {
            frame(&mut out, -100, -80, 100, 80);
            line(&mut out, -100, 0, 100, 0);
        },
        Icon::ClosePane => {
            frame(&mut out, -100, -80, 100, 80);
            line(&mut out, -45, -35, 5, 35);
            line(&mut out, 5, -35, -45, 35);
        },
        _ => {},
    }
    assert(out@ =~= marks_of(icon));
    out
}

/// The other glyphs.
fn other_glyph(icon: Icon) -> (out: Vec<Mark>)
    requires
        icon == Icon::Home || icon == Icon::Refresh || icon == Icon::Settings || icon == Icon::Help || icon == Icon::Restart || icon == Icon::Search || icon == Icon::Plus || icon == Icon::ChevronLeft || icon == Icon::ChevronRight,
    ensures
        out@ == marks_of(icon),
{
    let mut out: Vec<Mark> = Vec::new();
    match icon {
        Icon::Home => {
            line(&mut out, -100, -45, -15, -100);
            line(&mut out, -15, -100, 100, -45);
            line(&mut out, -70, -50, -70, 85);
            line(&mut out, 70, -50, 70, 85);
            line(&mut out, -70, 85, 70, 85);
        },
        Icon::Refresh => {
            out.push(Mark::Arc { radius: 80, begin: -24, end: 19 });
            out.push(Mark::Barb { radius: 80, angle: 19, by: (-34, -24) });
            out.push(Mark::Barb { radius: 80, angle: 19, by: (6, -42) });
        },
        Icon::Settings => {
            out.push(Mark::Ring { radius: 45 });
            out.push(Mark::Spokes { count: 6, inner: 50, outer: 95 });
        },
        Icon::Help => {
            out.push(Mark::Ring { radius: 90 });
            line(&mut out, 0, -25, 0, 15);
            out.push(Mark::Dot { at: (0, 45), size: 90, least: 100 });
        },
        Icon::Restart => {
            out.push(Mark::Arc { radius: 85, begin: -19, end: 19 });
            line(&mut out, 0, -105, 0, -20);
        },
        Icon::Search => {
            out.push(Mark::Ring { radius: 60 });
            line(&mut out, 45, 45, 95, 95);
        },
        Icon::Plus => {
            line(&mut out, -70, 0, 70, 0);
            line(&mut out, 0, -70, 0, 70);
        },
        Icon::ChevronLeft => {
            line(&mut out, 35, -70, -35, 0);
            line(&mut out, -35, 0, 35, 70);
        },
        Icon::ChevronRight => {
            line(&mut out, -35, -70, 35, 0);
            line(&mut out, 35, 0, -35, 70);
        },
        _ => {},
    }
    assert(out@ =~= marks_of(icon));
    out
}

/// The marks of a glyph, in the order in which they are drawn.
pub fn draw(icon: Icon) -> (out: Vec<Mark>)
    ensures
        out@ == marks_of(icon),
{
    match icon {
        Icon::FolderUp | Icon::NewFolder | Icon::Folder => folders_glyph(icon),
        Icon::File
        | Icon::FileText
        | Icon::FileCode
        | Icon::FileImage
        | Icon::FileArchive
        | Icon::FileMedia
        | Icon::FileBinary => files_glyph(icon),
        Icon::Close | Icon::Minimize | Icon::Maximize | Icon::Restore => window_glyph(icon),
        Icon::Terminal
        | Icon::Host
        | Icon::Group
        | Icon::SplitHorizontal
        | Icon::SplitVertical
        | Icon::ClosePane => panes_glyph(icon),
        Icon::Home
        | Icon::Refresh
        | Icon::Settings
        | Icon::Help
        | Icon::Restart
        | Icon::Search
        | Icon::Plus
        | Icon::ChevronLeft
        | Icon::ChevronRight => other_glyph(icon),
    }
}

/// Every glyph paints something.
pub proof fn law_every_glyph_paints(icon: Icon)
    ensures
        marks_of(icon).len() > 0,
{
}

/// A mark that lies within the glyph's box, up to a twentieth of its half side.
pub open spec fn within_box(m: Mark) -> bool {
    let inside = |p: (int, int)| -105 <= p.0 <= 105 && -105 <= p.1 <= 105;
    match m {
        Mark::Line { from, to } => inside((from.0 as int, from.1 as int)) && inside(
            (to.0 as int, to.1 as int),
        ),
        Mark::Frame { min, max } | Mark::Block { min, max } => inside(
            (min.0 as int, min.1 as int),
        ) && inside((max.0 as int, max.1 as int)),
        Mark::Ring { radius } => 0 <= radius <= 100,
        Mark::Arc { radius, .. } | Mark::Barb { radius, .. } => 0 <= radius <= 100,
        Mark::Spokes { inner, outer, .. } => 0 <= inner <= outer <= 100,
        Mark::Dot { at, .. } => inside((at.0 as int, at.1 as int)),
    }
}

/// No glyph is drawn beyond its box, so that one drawing serves every size.
pub proof fn law_glyphs_stay_in_their_box(icon: Icon, k: int)
    requires
        0 <= k < marks_of(icon).len(),
    ensures
        within_box(marks_of(icon)[k]),
{
}

/// A mark as it stands in a mirror.
pub open spec fn mirrored(m: Mark) -> Mark {
    match m {
        Mark::Line { from, to } => line_of(-from.0, from.1 as int, -to.0, to.1 as int),
        other => other,
    }
}

/// The two chevrons are each other in a mirror, and the cross and the plus are their own,
/// up to the order of their lines.
pub proof fn law_glyphs_in_a_mirror(k: int)
    requires
        0 <= k < 2,
    ensures
        marks_of(Icon::ChevronLeft).len() == 2,
        marks_of(Icon::ChevronRight).len() == 2,
        marks_of(Icon::ChevronRight)[k] == mirrored(marks_of(Icon::ChevronLeft)[k]),
        marks_of(Icon::Close).len() == 2,
        marks_of(Icon::Close)[1] == mirrored(marks_of(Icon::Close)[0]),
{
}

/// The glyphs of a split show what it does: a frame, parted in the middle by a line from top
/// to bottom where the panes stand side by side, and from left to right where one is
/// below the other.
pub proof fn law_glyphs_of_splits()
    ensures
        ({
            let h = marks_of(Icon::SplitHorizontal);
            let v = marks_of(Icon::SplitVertical);
            &&& h.len() == 2 && v.len() == 2 && h[0] == v[0]
            &&& h[0] matches Mark::Frame { min, max } && min.0 == -max.0 && min.1 == -max.1 && h[1]
                == line_of(0, min.1 as int, 0, max.1 as int) && v[1] == line_of(
                min.0 as int,
                0,
                max.0 as int,
                0,
            )
        }),
{
}

/// Every glyph of a file starts with the page, and every glyph of a folder with the folder.
/// The lines of the page and of the folder join.
pub proof fn law_glyphs_of_files(k: int)
    ensures
        0 <= k < 7 ==> marks_of(Icon::File).len() == 7 && marks_of(Icon::FileText)[k] == marks_of(
            Icon::File,
        )[k] && marks_of(Icon::FileCode)[k] == marks_of(Icon::File)[k] && marks_of(
            Icon::FileImage,
        )[k] == marks_of(Icon::File)[k] && marks_of(Icon::FileArchive)[k] == marks_of(
            Icon::File,
        )[k] && marks_of(Icon::FileMedia)[k] == marks_of(Icon::File)[k] && marks_of(
            Icon::FileBinary,
        )[k] == marks_of(Icon::File)[k],
        0 <= k < 6 ==> marks_of(Icon::Folder).len() == 6 && marks_of(Icon::FolderUp)[k] == marks_of(
            Icon::Folder,
        )[k] && marks_of(Icon::NewFolder)[k] == marks_of(Icon::Folder)[k],
        0 <= k < 4 ==> (marks_of(Icon::File)[k] matches Mark::Line { to: a, .. } && marks_of(
            Icon::File,
        )[k + 1] matches Mark::Line { from: b, .. } && a == b),
        0 <= k < 4 ==> (marks_of(Icon::Folder)[k] matches Mark::Line { to: a, .. } && marks_of(
            Icon::Folder,
        )[k + 1] matches Mark::Line { from: b, .. } && a == b),
        marks_of(Icon::File)[4] matches Mark::Line { to: a, .. } && marks_of(
            Icon::File,
        )[0] matches Mark::Line { from: b, .. } && a == b,
{
}

} // verus!
