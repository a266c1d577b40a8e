//! What launching at login writes: a desktop entry on Linux, a launch agent
//! on macOS, a `Run` value on Windows. Writing and removing them is the
//! program's business; their text is decided here.
use vstd::prelude::*;

verus! {

/// The XDG autostart entry that starts `exe_path` at login.
pub open spec fn desktop_entry_text(exe_path: Seq<char>) -> Seq<char> {
    "[Desktop Entry]\nType=Application\nName=SNI Spoof\nExec="@ + exe_path
        + "\nHidden=false\nX-GNOME-Autostart-enabled=true\n"@
}

pub fn desktop_entry(exe_path: &str) -> (r: String)
    ensures
        r@ == desktop_entry_text(exe_path@),
{
    let mut s = String::from_str("[Desktop Entry]\nType=Application\nName=SNI Spoof\nExec=");
    s.append(exe_path);
    s.append("\nHidden=false\nX-GNOME-Autostart-enabled=true\n");
    s
}

/// The launchd agent that starts `exe_path` at login.
pub open spec fn launch_agent_text(exe_path: Seq<char>) -> Seq<char> {
    "<?xml version=\"1.0\" encoding=\"UTF-8\"?>\n<!DOCTYPE plist PUBLIC \"-//Apple//DTD PLIST 1.0//EN\" \"http://www.apple.com/DTDs/PropertyList-1.0.dtd\">\n<plist version=\"1.0\">\n<dict>\n    <key>Label</key>\n    <string>com.sni-fake</string>\n    <key>ProgramArguments</key>\n    <array>\n        <string>"@
        + exe_path
        + "</string>\n    </array>\n    <key>RunAtLoad</key>\n    <true/>\n</dict>\n</plist>\n"@
}

pub fn launch_agent(exe_path: &str) -> (r: String)
    ensures
        r@ == launch_agent_text(exe_path@),
{
    let mut s = String::from_str(
        "<?xml version=\"1.0\" encoding=\"UTF-8\"?>\n<!DOCTYPE plist PUBLIC \"-//Apple//DTD PLIST 1.0//EN\" \"http://www.apple.com/DTDs/PropertyList-1.0.dtd\">\n<plist version=\"1.0\">\n<dict>\n    <key>Label</key>\n    <string>com.sni-fake</string>\n    <key>ProgramArguments</key>\n    <array>\n        <string>",
    );
    s.append(exe_path);
    s.append("</string>\n    </array>\n    <key>RunAtLoad</key>\n    <true/>\n</dict>\n</plist>\n");
    s
}

/// The registry `Run` value that starts `exe_path` at login: the path in
/// double quotes.
pub fn run_value(exe_path: &str) -> (r: String)
    ensures
        r@ == "\""@ + exe_path@ + "\""@,
{
    let mut s = String::from_str("\"");
    s.append(exe_path);
    s.append("\"");
    s
}

} // verus!
