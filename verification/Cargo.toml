[package]
name = "boxedcat"
version = "0.1.0"
edition = "2021"
publish = false

[dependencies]
rcgen = "0.13"
time = "0.3"
windows-sys = { version = "0.59", features = ["Win32_Foundation", "Win32_NetworkManagement_IpHelper", "Win32_NetworkManagement_Ndis", "Win32_Networking_WinSock", "Win32_System_Threading", "Win32_System_Diagnostics_ToolHelp", "Win32_System_SystemInformation", "Win32_System_Registry", "Win32_Networking_WinHttp", "Win32_UI_Controls_Dialogs", "Win32_UI_Shell", "Win32_UI_Shell_Common", "Win32_System_Com", "Win32_Security"] }
