[package]
name = "somenet"
version = "0.1.0"
edition = "2021"
publish = false

[dependencies]
cpal = "*"
ctrlc = "3"
eframe = { version = "*", default-features = false, features = ["default_fonts", "glow", "x11"] }
libc = "0.2"
objc2 = "0.6"
objc2-app-kit = { version = "0.3", default-features = false, features = ["std", "NSButton", "NSCell", "NSColor", "NSControl", "NSResponder", "NSSegmentedControl", "NSTextField", "NSView"] }
objc2-foundation = { version = "0.3", default-features = false, features = ["std", "NSGeometry", "NSString", "NSTimer"] }
objc2-quartz-core = { version = "0.3", default-features = false, features = ["std", "CALayer"] }
vst3 = "0.3.0"
windows-sys = { version = "0.61", features = ["Win32_Foundation", "Win32_Graphics_Gdi", "Win32_System_LibraryLoader", "Win32_UI_WindowsAndMessaging"] }
