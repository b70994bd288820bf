//! The data model: spaces, windows, applications and the errors of the engine.

use vstd::prelude::*;

verus! {

/// Why a refresh or a focus switch did not complete.
#[derive(Clone, Copy, Debug, PartialEq, Eq, Structural)]
pub enum Error {
    /// A window-server enumeration came back invalid; the refresh is abandoned.
    QueryFailure,
    /// The process serial number of the owning process could not be found.
    ProcessResolutionFailed,
    /// The request to bring the owning process to the front was refused.
    FrontProcessFailed,
    /// One of the two key-window event records was refused.
    KeyWindowFailed,
    /// The bounds of the window could not be had.
    BoundsUnavailable,
    /// The window has no control handle yet and cannot be focused.
    Unresolved,
}

/// The legacy token that names a process to the window server.
#[derive(Clone, Copy, Debug, PartialEq, Eq, Structural)]
pub struct ProcessSerialNumber {
    pub high_long_of_psn: u32,
    pub low_long_of_psn: u32,
}

impl Default for ProcessSerialNumber {
    fn default() -> (psn: Self)
        ensures
            psn.high_long_of_psn == 0,
            psn.low_long_of_psn == 0,
    {
        ProcessSerialNumber { high_long_of_psn: 0, low_long_of_psn: 0 }
    }
}

/// A window's bounding rectangle in global screen coordinates. Each field is
/// the bit pattern of a 64-bit floating-point number; the engine carries the
/// rectangle and never computes with it.
#[derive(Clone, Copy, Debug, PartialEq, Eq, Structural)]
pub struct Bounds {
    pub x: u64,
    pub y: u64,
    pub width: u64,
    pub height: u64,
}

/// The control handle of a window: the owning process and the candidate index
/// under which that process keeps the window's control object.
#[derive(Clone, Copy, Debug, PartialEq, Eq, Structural)]
pub struct Handle {
    pub pid: i32,
    pub index: u64,
}

/// A virtual desktop and the display it lives on.
#[derive(Debug, PartialEq, Eq)]
pub struct Space {
    /// Position of the display in enumeration order, counted from 1.
    pub display: u8,
    pub display_uuid: String,
    /// Ordinal among the user spaces of all displays, counted from 1; a space
    /// of another type has none.
    pub index: Option<u8>,
    pub id: i64,
}

/// What a `Space` is, with its text as a sequence of characters.
pub struct SpaceView {
    pub display: u8,
    pub display_uuid: Seq<char>,
    pub index: Option<u8>,
    pub id: i64,
}

impl View for Space {
    type V = SpaceView;

    open spec fn view(&self) -> SpaceView {
        SpaceView {
            display: self.display,
            display_uuid: self.display_uuid@,
            index: self.index,
            id: self.id,
        }
    }
}

impl Clone for Space {
    fn clone(&self) -> (out: Self)
        ensures
            out@ == self@,
    {
        Space {
            display: self.display,
            display_uuid: self.display_uuid.clone(),
            index: self.index,
            id: self.id,
        }
    }
}

/// A window of a kept application.
#[derive(Debug, PartialEq, Eq)]
pub struct Window {
    pub title: String,
    pub id: u32,
    pub bounds: Bounds,
    pub space: Space,
    /// The control handle, once the resolver has found it.
    pub handle: Option<Handle>,
}

/// What a `Window` is.
pub struct WindowView {
    pub title: Seq<char>,
    pub id: u32,
    pub bounds: Bounds,
    pub space: SpaceView,
    pub handle: Option<Handle>,
}

impl View for Window {
    type V = WindowView;

    open spec fn view(&self) -> WindowView {
        WindowView {
            title: self.title@,
            id: self.id,
            bounds: self.bounds,
            space: self.space@,
            handle: self.handle,
        }
    }
}

impl Clone for Window {
    fn clone(&self) -> (out: Self)
        ensures
            out@ == self@,
    {
        Window {
            title: self.title.clone(),
            id: self.id,
            bounds: self.bounds,
            space: self.space.clone(),
            handle: self.handle,
        }
    }
}

/// A running application and its windows.
#[derive(Debug, PartialEq, Eq)]
pub struct App {
    pub pid: i32,
    pub name: String,
    pub windows: Vec<Window>,
}

/// What an `App` is.
pub struct AppView {
    pub pid: i32,
    pub name: Seq<char>,
    pub windows: Seq<WindowView>,
}

/// The views of a sequence of windows, in the same order.
pub open spec fn window_views(windows: Seq<Window>) -> Seq<WindowView> {
    Seq::new(windows.len(), |i: int| windows[i]@)
}

impl View for App {
    type V = AppView;

    open spec fn view(&self) -> AppView {
        AppView { pid: self.pid, name: self.name@, windows: window_views(self.windows@) }
    }
}

impl App {
    /// An application without windows.
    pub fn new(pid: i32, name: String) -> (app: Self)
        ensures
            app@ == (AppView { pid, name: name@, windows: Seq::empty() }),
    {
        let app = App { pid, name, windows: Vec::new() };
        assert(window_views(app.windows@) =~= Seq::empty());
        app
    }
}

} // verus!
