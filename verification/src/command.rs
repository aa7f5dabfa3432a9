//! Command catalog: the canonical list of cockpit actions and their default
//! keyboard shortcuts, in display order grouped by category.
//!
//! Shortcuts use the platform-agnostic `Mod` token for the primary modifier
//! (Cmd on macOS, Ctrl elsewhere); the shell resolves it per platform.

use vstd::prelude::*;

verus! {

/// The functional grouping a command belongs to.
#[derive(Clone, Copy, Debug, PartialEq, Eq, Hash, Structural)]
pub enum CommandCategory {
    Tool,
    Shape,
    View,
    Edit,
    Selection,
    Template,
    Canvas,
}

/// A single cockpit command entry.
#[derive(Clone, Debug, PartialEq)]
pub struct Command {
    pub id: String,
    pub label: String,
    pub category: CommandCategory,
    pub default_shortcut: Option<String>,
    pub description: String,
}

/// A command's text, as character sequences.
pub struct CommandView {
    pub id: Seq<char>,
    pub label: Seq<char>,
    pub category: CommandCategory,
    pub default_shortcut: Option<Seq<char>>,
    pub description: Seq<char>,
}

impl View for Command {
    type V = CommandView;

    open spec fn view(&self) -> CommandView {
        CommandView {
            id: self.id@,
            label: self.label@,
            category: self.category,
            default_shortcut: match self.default_shortcut {
                Some(s) => Some(s@),
                None => None,
            },
            description: self.description@,
        }
    }
}

impl Command {
    fn new(
        id: &str,
        label: &str,
        category: CommandCategory,
        default_shortcut: Option<&str>,
        description: &str,
    ) -> (r: Self)
        ensures
            r@ == (CommandView {
                id: id@,
                label: label@,
                category,
                default_shortcut: match default_shortcut {
                    Some(s) => Some(s@),
                    None => None,
                },
                description: description@,
            }),
    {
        Command {
            id: id.to_owned(),
            label: label.to_owned(),
            category,
            default_shortcut: match default_shortcut {
                Some(s) => Some(s.to_owned()),
                None => None,
            },
            description: description.to_owned(),
        }
    }
}

/// The catalog, entry by entry.
pub open spec fn catalog_spec() -> Seq<CommandView> {
    seq![
        CommandView { id: "select-move"@, label: "Select / Move"@, category: CommandCategory::Tool, default_shortcut: Some("V"@), description: "Activate the select-and-move tool for picking and dragging objects."@ },
        CommandView { id: "hand-pan"@, label: "Hand / Pan"@, category: CommandCategory::Tool, default_shortcut: Some("H"@), description: "Activate the hand tool to pan the canvas viewport."@ },
        CommandView { id: "insert-rectangle"@, label: "Rectangle"@, category: CommandCategory::Shape, default_shortcut: Some("R"@), description: "Insert a rectangle shape."@ },
        CommandView { id: "insert-ellipse"@, label: "Ellipse"@, category: CommandCategory::Shape, default_shortcut: Some("O"@), description: "Insert an ellipse shape."@ },
        CommandView { id: "insert-connector"@, label: "Connector"@, category: CommandCategory::Shape, default_shortcut: Some("C"@), description: "Insert a connector between two objects."@ },
        CommandView { id: "insert-sticky"@, label: "Sticky Note"@, category: CommandCategory::Shape, default_shortcut: Some("S"@), description: "Insert a sticky note."@ },
        CommandView { id: "insert-frame"@, label: "Frame"@, category: CommandCategory::Shape, default_shortcut: Some("F"@), description: "Insert a frame to group objects."@ },
        CommandView { id: "zoom-in"@, label: "Zoom In"@, category: CommandCategory::View, default_shortcut: Some("Mod+="@), description: "Zoom the canvas in."@ },
        CommandView { id: "zoom-out"@, label: "Zoom Out"@, category: CommandCategory::View, default_shortcut: Some("Mod+-"@), description: "Zoom the canvas out."@ },
        CommandView { id: "zoom-fit"@, label: "Zoom to Fit"@, category: CommandCategory::View, default_shortcut: Some("Shift+1"@), description: "Zoom and pan so the whole scene fits in the viewport."@ },
        CommandView { id: "zoom-reset"@, label: "Reset Zoom"@, category: CommandCategory::View, default_shortcut: Some("Mod+0"@), description: "Reset the zoom level to 100%."@ },
        CommandView { id: "toggle-fullscreen"@, label: "Toggle Fullscreen"@, category: CommandCategory::View, default_shortcut: Some("F11"@), description: "Toggle fullscreen canvas mode."@ },
        CommandView { id: "delete"@, label: "Delete"@, category: CommandCategory::Edit, default_shortcut: Some("Backspace"@), description: "Delete the current selection."@ },
        CommandView { id: "duplicate"@, label: "Duplicate"@, category: CommandCategory::Edit, default_shortcut: Some("Mod+D"@), description: "Duplicate the current selection."@ },
        CommandView { id: "copy"@, label: "Copy"@, category: CommandCategory::Edit, default_shortcut: Some("Mod+C"@), description: "Copy the current selection to the clipboard."@ },
        CommandView { id: "paste"@, label: "Paste"@, category: CommandCategory::Edit, default_shortcut: Some("Mod+V"@), description: "Paste from the clipboard."@ },
        CommandView { id: "group"@, label: "Group"@, category: CommandCategory::Edit, default_shortcut: Some("Mod+G"@), description: "Group the selected objects into a frame."@ },
        CommandView { id: "ungroup"@, label: "Ungroup"@, category: CommandCategory::Edit, default_shortcut: Some("Mod+Shift+G"@), description: "Ungroup the selected frame."@ },
        CommandView { id: "align-left"@, label: "Align Left"@, category: CommandCategory::Edit, default_shortcut: None, description: "Align the selected objects to their left edges."@ },
        CommandView { id: "align-center"@, label: "Align Center"@, category: CommandCategory::Edit, default_shortcut: None, description: "Align the selected objects to their horizontal centers."@ },
        CommandView { id: "align-right"@, label: "Align Right"@, category: CommandCategory::Edit, default_shortcut: None, description: "Align the selected objects to their right edges."@ },
        CommandView { id: "distribute-horizontal"@, label: "Distribute Horizontally"@, category: CommandCategory::Edit, default_shortcut: None, description: "Distribute the selected objects evenly along the horizontal axis."@ },
        CommandView { id: "bring-to-front"@, label: "Bring to Front"@, category: CommandCategory::Edit, default_shortcut: Some("]"@), description: "Bring the current selection to the front of the z-order."@ },
        CommandView { id: "send-to-back"@, label: "Send to Back"@, category: CommandCategory::Edit, default_shortcut: Some("["@), description: "Send the current selection to the back of the z-order."@ },
        CommandView { id: "select-all"@, label: "Select All"@, category: CommandCategory::Selection, default_shortcut: Some("Mod+A"@), description: "Select all objects in the scene."@ },
        CommandView { id: "clear-selection"@, label: "Clear Selection"@, category: CommandCategory::Selection, default_shortcut: Some("Escape"@), description: "Clear the current selection."@ },
        CommandView { id: "open-template-library"@, label: "Template Library"@, category: CommandCategory::Template, default_shortcut: Some("T"@), description: "Open the template library."@ },
        CommandView { id: "new-canvas"@, label: "New Canvas"@, category: CommandCategory::Canvas, default_shortcut: Some("Mod+N"@), description: "Create a new canvas."@ },
        CommandView { id: "open-settings"@, label: "Settings"@, category: CommandCategory::Canvas, default_shortcut: Some("Mod+,"@), description: "Open the settings panel."@ },
    ]
}

/// The full cockpit command catalog, in display order grouped by category.
pub fn command_catalog() -> (r: Vec<Command>)
    ensures
        r@.map_values(|c: Command| c@) == catalog_spec(),
{
    let mut v: Vec<Command> = Vec::new();
    v.push(Command::new("select-move", "Select / Move", CommandCategory::Tool, Some("V"), "Activate the select-and-move tool for picking and dragging objects."));
    v.push(Command::new("hand-pan", "Hand / Pan", CommandCategory::Tool, Some("H"), "Activate the hand tool to pan the canvas viewport."));
    v.push(Command::new("insert-rectangle", "Rectangle", CommandCategory::Shape, Some("R"), "Insert a rectangle shape."));
    v.push(Command::new("insert-ellipse", "Ellipse", CommandCategory::Shape, Some("O"), "Insert an ellipse shape."));
    v.push(Command::new("insert-connector", "Connector", CommandCategory::Shape, Some("C"), "Insert a connector between two objects."));
    v.push(Command::new("insert-sticky", "Sticky Note", CommandCategory::Shape, Some("S"), "Insert a sticky note."));
    v.push(Command::new("insert-frame", "Frame", CommandCategory::Shape, Some("F"), "Insert a frame to group objects."));
    v.push(Command::new("zoom-in", "Zoom In", CommandCategory::View, Some("Mod+="), "Zoom the canvas in."));
    v.push(Command::new("zoom-out", "Zoom Out", CommandCategory::View, Some("Mod+-"), "Zoom the canvas out."));
    v.push(Command::new("zoom-fit", "Zoom to Fit", CommandCategory::View, Some("Shift+1"), "Zoom and pan so the whole scene fits in the viewport."));
    v.push(Command::new("zoom-reset", "Reset Zoom", CommandCategory::View, Some("Mod+0"), "Reset the zoom level to 100%."));
    v.push(Command::new("toggle-fullscreen", "Toggle Fullscreen", CommandCategory::View, Some("F11"), "Toggle fullscreen canvas mode."));
    v.push(Command::new("delete", "Delete", CommandCategory::Edit, Some("Backspace"), "Delete the current selection."));
    v.push(Command::new("duplicate", "Duplicate", CommandCategory::Edit, Some("Mod+D"), "Duplicate the current selection."));
    v.push(Command::new("copy", "Copy", CommandCategory::Edit, Some("Mod+C"), "Copy the current selection to the clipboard."));
    v.push(Command::new("paste", "Paste", CommandCategory::Edit, Some("Mod+V"), "Paste from the clipboard."));
    v.push(Command::new("group", "Group", CommandCategory::Edit, Some("Mod+G"), "Group the selected objects into a frame."));
    v.push(Command::new("ungroup", "Ungroup", CommandCategory::Edit, Some("Mod+Shift+G"), "Ungroup the selected frame."));
    v.push(Command::new("align-left", "Align Left", CommandCategory::Edit, None, "Align the selected objects to their left edges."));
    v.push(Command::new("align-center", "Align Center", CommandCategory::Edit, None, "Align the selected objects to their horizontal centers."));
    v.push(Command::new("align-right", "Align Right", CommandCategory::Edit, None, "Align the selected objects to their right edges."));
    v.push(Command::new("distribute-horizontal", "Distribute Horizontally", CommandCategory::Edit, None, "Distribute the selected objects evenly along the horizontal axis."));
    v.push(Command::new("bring-to-front", "Bring to Front", CommandCategory::Edit, Some("]"), "Bring the current selection to the front of the z-order."));
    v.push(Command::new("send-to-back", "Send to Back", CommandCategory::Edit, Some("["), "Send the current selection to the back of the z-order."));
    v.push(Command::new("select-all", "Select All", CommandCategory::Selection, Some("Mod+A"), "Select all objects in the scene."));
    v.push(Command::new("clear-selection", "Clear Selection", CommandCategory::Selection, Some("Escape"), "Clear the current selection."));
    v.push(Command::new("open-template-library", "Template Library", CommandCategory::Template, Some("T"), "Open the template library."));
    v.push(Command::new("new-canvas", "New Canvas", CommandCategory::Canvas, Some("Mod+N"), "Create a new canvas."));
    v.push(Command::new("open-settings", "Settings", CommandCategory::Canvas, Some("Mod+,"), "Open the settings panel."));
    assert(v@.map_values(|c: Command| c@) =~= catalog_spec());
    v
}

} // verus!
