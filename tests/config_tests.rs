use hyprgrid::config::{
    find_focused, ConfigError, GridDimensions, HyprGridConfig, MonitorInfo, Orientation,
};

fn monitor(name: &str, width: u32, height: u32, focused: bool) -> MonitorInfo {
    MonitorInfo {
        name: name.to_string(),
        width,
        height,
        focused,
    }
}

#[test]
fn test_orientation_detection() {
    assert_eq!(Orientation::from_dimensions(1920, 1080), Orientation::Landscape);
    assert_eq!(Orientation::from_dimensions(1080, 1920), Orientation::Portrait);
    assert_eq!(Orientation::from_dimensions(1080, 1080), Orientation::Square);
}

#[test]
fn test_grid_dimensions_landscape() {
    let monitor = MonitorInfo {
        name: "DP-1".to_string(),
        width: 2560,
        height: 1440,
        focused: true,
    };

    let grid = GridDimensions::calculate(10, 20, &monitor);
    assert_eq!(grid.rows, 10);
    assert_eq!(grid.cols, 20);
    assert_eq!(grid.orientation, Orientation::Landscape);
    assert_eq!(grid.total_cells(), 200);
}

#[test]
fn test_grid_dimensions_portrait() {
    let monitor = MonitorInfo {
        name: "DP-1".to_string(),
        width: 1080,
        height: 1920,
        focused: true,
    };

    let grid = GridDimensions::calculate(10, 20, &monitor);
    // Should swap: rows=20, cols=10
    assert_eq!(grid.rows, 20);
    assert_eq!(grid.cols, 10);
    assert_eq!(grid.orientation, Orientation::Portrait);
    assert_eq!(grid.total_cells(), 200);
}

#[test]
fn test_grid_dimensions_square() {
    let monitor = MonitorInfo {
        name: "DP-1".to_string(),
        width: 1920,
        height: 1920,
        focused: true,
    };

    let grid = GridDimensions::calculate(10, 20, &monitor);
    assert_eq!(grid.rows, 10);
    assert_eq!(grid.cols, 20);
    assert_eq!(grid.orientation, Orientation::Square);
}

#[test]
fn orientation_at_the_boundary() {
    assert_eq!(Orientation::from_dimensions(1, 0), Orientation::Landscape);
    assert_eq!(Orientation::from_dimensions(0, 1), Orientation::Portrait);
    assert_eq!(Orientation::from_dimensions(0, 0), Orientation::Square);
    assert_eq!(Orientation::from_dimensions(1081, 1080), Orientation::Landscape);
    assert_eq!(Orientation::from_dimensions(1079, 1080), Orientation::Portrait);
}

#[test]
fn swap_only_on_portrait() {
    let tall = GridDimensions::calculate(2, 50, &monitor("HDMI-A-1", 1440, 2560, false));
    assert_eq!((tall.rows, tall.cols, tall.orientation), (50, 2, Orientation::Portrait));
    let wide = GridDimensions::calculate(2, 50, &monitor("HDMI-A-1", 2560, 1440, false));
    assert_eq!((wide.rows, wide.cols, wide.orientation), (2, 50, Orientation::Landscape));
    let even = GridDimensions::calculate(7, 9, &monitor("eDP-1", 1000, 1000, true));
    assert_eq!((even.rows, even.cols, even.orientation), (7, 9, Orientation::Square));
}

#[test]
fn orientation_names() {
    assert_eq!(Orientation::Landscape.as_str(), "Landscape");
    assert_eq!(Orientation::Portrait.as_str(), "Portrait");
    assert_eq!(Orientation::Square.as_str(), "Square");
}

#[test]
fn validate_accepts_the_range() {
    for (rows, cols) in [(2, 2), (50, 50), (10, 20), (2, 50)] {
        let config = HyprGridConfig { grid_rows: rows, grid_cols: cols };
        assert_eq!(config.validate(), Ok(()));
    }
}

#[test]
fn validate_rejects_rows_first() {
    let config = HyprGridConfig { grid_rows: 1, grid_cols: 51 };
    assert_eq!(config.validate(), Err(ConfigError::InvalidRows(1)));
    let config = HyprGridConfig { grid_rows: 51, grid_cols: 10 };
    assert_eq!(config.validate(), Err(ConfigError::InvalidRows(51)));
}

#[test]
fn validate_rejects_cols() {
    let config = HyprGridConfig { grid_rows: 10, grid_cols: 51 };
    assert_eq!(config.validate(), Err(ConfigError::InvalidCols(51)));
    let config = HyprGridConfig { grid_rows: 10, grid_cols: 0 };
    assert_eq!(config.validate(), Err(ConfigError::InvalidCols(0)));
}

#[test]
fn first_focused_monitor_is_found() {
    let monitors = vec![
        monitor("DP-1", 2560, 1440, false),
        monitor("DP-2", 1080, 1920, true),
        monitor("HDMI-A-1", 1920, 1080, true),
    ];
    let found = find_focused(monitors).unwrap();
    assert_eq!(found.name, "DP-2");
    assert_eq!((found.width, found.height), (1080, 1920));
}

#[test]
fn no_focused_monitor() {
    let monitors = vec![monitor("DP-1", 2560, 1440, false)];
    assert!(find_focused(monitors).is_none());
    assert!(find_focused(Vec::new()).is_none());
}
