//! Grid shape and configuration values.

use vstd::prelude::*;

verus! {

/// Smallest number of rows or columns a configuration may ask for.
pub const MIN_DIMENSION: u32 = 2;

/// Largest number of rows or columns a configuration may ask for.
pub const MAX_DIMENSION: u32 = 50;

/// A monitor as reported by the window manager.
#[derive(Debug)]
pub struct MonitorInfo {
    /// Monitor name, such as "DP-1" or "HDMI-A-1".
    pub name: String,
    /// Horizontal resolution in pixels.
    pub width: u32,
    /// Vertical resolution in pixels.
    pub height: u32,
    /// Whether this monitor is currently focused.
    pub focused: bool,
}

impl Clone for MonitorInfo {
    fn clone(&self) -> (r: MonitorInfo)
        ensures
            r == *self,
    {
        MonitorInfo {
            name: self.name.clone(),
            width: self.width,
            height: self.height,
            focused: self.focused,
        }
    }
}

/// Monitor orientation, derived from its dimensions.
#[derive(Debug, Clone, Copy, PartialEq, Eq, Structural)]
pub enum Orientation {
    Landscape,
    Portrait,
    Square,
}

/// The orientation of a monitor of the given width and height.
pub open spec fn orientation_of(width: u32, height: u32) -> Orientation {
    if width > height {
        Orientation::Landscape
    } else if width < height {
        Orientation::Portrait
    } else {
        Orientation::Square
    }
}

/// The human-readable name of an orientation.
pub open spec fn orientation_name(o: Orientation) -> Seq<char> {
    match o {
        Orientation::Landscape => seq!['L', 'a', 'n', 'd', 's', 'c', 'a', 'p', 'e'],
        Orientation::Portrait => seq!['P', 'o', 'r', 't', 'r', 'a', 'i', 't'],
        Orientation::Square => seq!['S', 'q', 'u', 'a', 'r', 'e'],
    }
}

impl Orientation {
    /// Detect orientation from monitor dimensions.
    pub fn from_dimensions(width: u32, height: u32) -> (r: Orientation)
        ensures
            r == orientation_of(width, height),
    {
        if width > height {
            Orientation::Landscape
        } else if width < height {
            Orientation::Portrait
        } else {
            Orientation::Square
        }
    }

    /// A human-readable name.
    pub fn as_str(&self) -> (r: &str)
        ensures
            r@ == orientation_name(*self),
    {
        match self {
            Orientation::Landscape => {
                proof {
                    reveal_strlit("Landscape");
                }
                let r = "Landscape";
                assert(r@ =~= orientation_name(*self));
                r
            },
            Orientation::Portrait => {
                proof {
                    reveal_strlit("Portrait");
                }
                let r = "Portrait";
                assert(r@ =~= orientation_name(*self));
                r
            },
            Orientation::Square => {
                proof {
                    reveal_strlit("Square");
                }
                let r = "Square";
                assert(r@ =~= orientation_name(*self));
                r
            },
        }
    }
}

/// Grid dimensions after applying orientation-based rotation.
#[derive(Debug, Clone, Copy, PartialEq, Eq, Structural)]
pub struct GridDimensions {
    /// Number of rows in the grid.
    pub rows: u32,
    /// Number of columns in the grid.
    pub cols: u32,
    /// Detected monitor orientation.
    pub orientation: Orientation,
}

/// The effective grid shape for configured `rows` and `cols` on a monitor of the
/// given size: unchanged for landscape and square monitors, swapped for portrait
/// ones, so that cells stay roughly square.
pub open spec fn resolve(rows: u32, cols: u32, width: u32, height: u32) -> GridDimensions {
    let orientation = orientation_of(width, height);
    if orientation == Orientation::Portrait {
        GridDimensions { rows: cols, cols: rows, orientation }
    } else {
        GridDimensions { rows, cols, orientation }
    }
}

impl GridDimensions {
    /// Calculate grid dimensions based on the monitor's orientation.
    pub fn calculate(config_rows: u32, config_cols: u32, monitor: &MonitorInfo) -> (r:
        GridDimensions)
        ensures
            r == resolve(config_rows, config_cols, monitor.width, monitor.height),
    {
        let orientation = Orientation::from_dimensions(monitor.width, monitor.height);
        let (rows, cols) = match orientation {
            Orientation::Landscape | Orientation::Square => (config_rows, config_cols),
            Orientation::Portrait => (config_cols, config_rows),
        };
        GridDimensions { rows, cols, orientation }
    }

    /// The total number of grid cells.
    pub fn total_cells(&self) -> (r: u32)
        requires
            self.rows * self.cols <= u32::MAX,
        ensures
            r == self.rows * self.cols,
    {
        self.rows * self.cols
    }
}

/// A monitor is landscape exactly when it is wider than tall, portrait exactly
/// when it is taller than wide, and square exactly when both sides are equal.
pub proof fn law_orientation(rows: u32, cols: u32, width: u32, height: u32)
    ensures
        resolve(rows, cols, width, height).orientation == Orientation::Landscape <==> width
            > height,
        resolve(rows, cols, width, height).orientation == Orientation::Portrait <==> width
            < height,
        resolve(rows, cols, width, height).orientation == Orientation::Square <==> width
            == height,
{
}

/// On a portrait monitor valid rows and columns are swapped; on a landscape or
/// square one they are kept.
pub proof fn law_swap(rows: u32, cols: u32, width: u32, height: u32)
    requires
        dimension_ok(rows),
        dimension_ok(cols),
    ensures
        width < height ==> resolve(rows, cols, width, height) == (GridDimensions {
            rows: cols,
            cols: rows,
            orientation: Orientation::Portrait,
        }),
        width >= height ==> resolve(rows, cols, width, height) == (GridDimensions {
            rows,
            cols,
            orientation: orientation_of(width, height),
        }),
{
}

/// Why a configuration was rejected.
#[derive(Debug, Clone, Copy, PartialEq, Eq, Structural)]
pub enum ConfigError {
    /// `grid_rows` lies outside `[MIN_DIMENSION, MAX_DIMENSION]`.
    InvalidRows(u32),
    /// `grid_cols` lies outside `[MIN_DIMENSION, MAX_DIMENSION]`.
    InvalidCols(u32),
}

/// `n` is an accepted number of rows or columns.
pub open spec fn dimension_ok(n: u32) -> bool {
    MIN_DIMENSION <= n <= MAX_DIMENSION
}

/// The grid shape asked for by the configuration, for a landscape monitor.
#[derive(Debug, Clone, Copy, PartialEq, Eq, Structural)]
pub struct HyprGridConfig {
    /// Number of rows in the grid overlay.
    pub grid_rows: u32,
    /// Number of columns in the grid overlay.
    pub grid_cols: u32,
}

impl HyprGridConfig {
    /// Check that both dimensions lie in `[MIN_DIMENSION, MAX_DIMENSION]`; the rows
    /// are checked first.
    pub fn validate(&self) -> (r: Result<(), ConfigError>)
        ensures
            r is Ok <==> dimension_ok(self.grid_rows) && dimension_ok(self.grid_cols),
            !dimension_ok(self.grid_rows) ==> r == Err::<(), ConfigError>(
                ConfigError::InvalidRows(self.grid_rows),
            ),
            dimension_ok(self.grid_rows) && !dimension_ok(self.grid_cols) ==> r == Err::<
                (),
                ConfigError,
            >(ConfigError::InvalidCols(self.grid_cols)),
    {
        if self.grid_rows < MIN_DIMENSION || self.grid_rows > MAX_DIMENSION {
            return Err(ConfigError::InvalidRows(self.grid_rows));
        }
        if self.grid_cols < MIN_DIMENSION || self.grid_cols > MAX_DIMENSION {
            return Err(ConfigError::InvalidCols(self.grid_cols));
        }
        Ok(())
    }
}

/// The first focused monitor of the list, if any is focused.
pub fn find_focused(monitors: Vec<MonitorInfo>) -> (r: Option<MonitorInfo>)
    ensures
        r is None <==> forall|i: int| 0 <= i < monitors.len() ==> !(#[trigger] monitors[i]).focused,
        r matches Some(m) ==> exists|i: int|
            0 <= i < monitors.len() && m == monitors[i] && m.focused && forall|j: int|
                0 <= j < i ==> !(#[trigger] monitors[j]).focused,
{
    let mut list = monitors;
    let mut i: usize = 0;
    while i < list.len()
        invariant
            list@ == monitors@,
            i <= list.len(),
            forall|j: int| 0 <= j < i ==> !(#[trigger] monitors[j]).focused,
        decreases list.len() - i,
    {
        if list[i].focused {
            let m = list.remove(i);
            assert(m == monitors[i as int]);
            return Some(m);
        }
        i += 1;
    }
    None
}

} // verus!
