//! The scanner catalogue: source identifiers and their priorities.
use vstd::prelude::*;

use crate::text::str_eq;

verus! {

/// The places that scanners read application entries from.
#[derive(Clone, Copy, Debug, PartialEq, Eq, Structural)]
pub enum IconSource {
    Desktop,
    PublicDesktop,
    StartMenu,
    CommonStartMenu,
    InstalledPrograms,
    ProgramFiles,
    ProgramFilesX86,
    QuickLaunch,
    TaskbarPinned,
    AppDataPrograms,
    UWPApps,
    Applications,
    SystemApplications,
    UserApplications,
    CoreServices,
    Spotlight,
    SystemProfiler,
}

/// The identifier of each source.
pub open spec fn source_id(s: IconSource) -> Seq<char> {
    match s {
        IconSource::Desktop => "desktop"@,
        IconSource::PublicDesktop => "public_desktop"@,
        IconSource::StartMenu => "start_menu"@,
        IconSource::CommonStartMenu => "common_start_menu"@,
        IconSource::InstalledPrograms => "installed_programs"@,
        IconSource::ProgramFiles => "program_files"@,
        IconSource::ProgramFilesX86 => "program_files_x86"@,
        IconSource::QuickLaunch => "quick_launch"@,
        IconSource::TaskbarPinned => "taskbar_pinned"@,
        IconSource::AppDataPrograms => "appdata_programs"@,
        IconSource::UWPApps => "uwp_apps"@,
        IconSource::Applications => "applications"@,
        IconSource::SystemApplications => "system_applications"@,
        IconSource::UserApplications => "user_applications"@,
        IconSource::CoreServices => "core_services"@,
        IconSource::Spotlight => "spotlight"@,
        IconSource::SystemProfiler => "system_profiler"@,
    }
}

/// The priority of a source: curated launch points outrank folder scans.
/// Unlisted sources get 50.
pub open spec fn priority_of(s: IconSource) -> i32 {
    match s {
        IconSource::UWPApps => 100,
        IconSource::TaskbarPinned => 90,
        IconSource::StartMenu => 85,
        IconSource::CommonStartMenu => 80,
        IconSource::Desktop => 75,
        IconSource::PublicDesktop => 70,
        IconSource::QuickLaunch => 65,
        IconSource::AppDataPrograms => 60,
        IconSource::InstalledPrograms => 50,
        IconSource::ProgramFiles => 40,
        IconSource::ProgramFilesX86 => 35,
        IconSource::Applications => 90,
        IconSource::SystemApplications => 80,
        IconSource::UserApplications => 85,
        IconSource::CoreServices => 50,
        IconSource::Spotlight => 50,
        IconSource::SystemProfiler => 50,
    }
}

/// The source an identifier names, if any.
pub open spec fn source_named(s: Seq<char>) -> Option<IconSource> {
    if s == "desktop"@ {
        Some(IconSource::Desktop)
    } else if s == "public_desktop"@ {
        Some(IconSource::PublicDesktop)
    } else if s == "start_menu"@ {
        Some(IconSource::StartMenu)
    } else if s == "common_start_menu"@ {
        Some(IconSource::CommonStartMenu)
    } else if s == "installed_programs"@ {
        Some(IconSource::InstalledPrograms)
    } else if s == "program_files"@ {
        Some(IconSource::ProgramFiles)
    } else if s == "program_files_x86"@ {
        Some(IconSource::ProgramFilesX86)
    } else if s == "quick_launch"@ {
        Some(IconSource::QuickLaunch)
    } else if s == "taskbar_pinned"@ {
        Some(IconSource::TaskbarPinned)
    } else if s == "appdata_programs"@ {
        Some(IconSource::AppDataPrograms)
    } else if s == "uwp_apps"@ {
        Some(IconSource::UWPApps)
    } else if s == "applications"@ {
        Some(IconSource::Applications)
    } else if s == "system_applications"@ {
        Some(IconSource::SystemApplications)
    } else if s == "user_applications"@ {
        Some(IconSource::UserApplications)
    } else if s == "core_services"@ {
        Some(IconSource::CoreServices)
    } else if s == "spotlight"@ {
        Some(IconSource::Spotlight)
    } else if s == "system_profiler"@ {
        Some(IconSource::SystemProfiler)
    } else {
        None
    }
}

impl IconSource {
    /// The source an identifier names, if any.
    pub fn from_str(s: &str) -> (r: Option<IconSource>)
        ensures
            r == source_named(s@),
    {
        proof {
            reveal_strlit("desktop");
            reveal_strlit("public_desktop");
            reveal_strlit("start_menu");
            reveal_strlit("common_start_menu");
            reveal_strlit("installed_programs");
            reveal_strlit("program_files");
            reveal_strlit("program_files_x86");
            reveal_strlit("quick_launch");
            reveal_strlit("taskbar_pinned");
            reveal_strlit("appdata_programs");
            reveal_strlit("uwp_apps");
            reveal_strlit("applications");
            reveal_strlit("system_applications");
            reveal_strlit("user_applications");
            reveal_strlit("core_services");
            reveal_strlit("spotlight");
            reveal_strlit("system_profiler");
        }
        if str_eq(s, "desktop") {
            Some(IconSource::Desktop)
        } else if str_eq(s, "public_desktop") {
            Some(IconSource::PublicDesktop)
        } else if str_eq(s, "start_menu") {
            Some(IconSource::StartMenu)
        } else if str_eq(s, "common_start_menu") {
            Some(IconSource::CommonStartMenu)
        } else if str_eq(s, "installed_programs") {
            Some(IconSource::InstalledPrograms)
        } else if str_eq(s, "program_files") {
            Some(IconSource::ProgramFiles)
        } else if str_eq(s, "program_files_x86") {
            Some(IconSource::ProgramFilesX86)
        } else if str_eq(s, "quick_launch") {
            Some(IconSource::QuickLaunch)
        } else if str_eq(s, "taskbar_pinned") {
            Some(IconSource::TaskbarPinned)
        } else if str_eq(s, "appdata_programs") {
            Some(IconSource::AppDataPrograms)
        } else if str_eq(s, "uwp_apps") {
            Some(IconSource::UWPApps)
        } else if str_eq(s, "applications") {
            Some(IconSource::Applications)
        } else if str_eq(s, "system_applications") {
            Some(IconSource::SystemApplications)
        } else if str_eq(s, "user_applications") {
            Some(IconSource::UserApplications)
        } else if str_eq(s, "core_services") {
            Some(IconSource::CoreServices)
        } else if str_eq(s, "spotlight") {
            Some(IconSource::Spotlight)
        } else if str_eq(s, "system_profiler") {
            Some(IconSource::SystemProfiler)
        } else {
            None
        }
    }

    /// The identifier of the source.
    pub fn id(&self) -> (r: &'static str)
        ensures
            r@ == source_id(*self),
    {
        match self {
            IconSource::Desktop => "desktop",
            IconSource::PublicDesktop => "public_desktop",
            IconSource::StartMenu => "start_menu",
            IconSource::CommonStartMenu => "common_start_menu",
            IconSource::InstalledPrograms => "installed_programs",
            IconSource::ProgramFiles => "program_files",
            IconSource::ProgramFilesX86 => "program_files_x86",
            IconSource::QuickLaunch => "quick_launch",
            IconSource::TaskbarPinned => "taskbar_pinned",
            IconSource::AppDataPrograms => "appdata_programs",
            IconSource::UWPApps => "uwp_apps",
            IconSource::Applications => "applications",
            IconSource::SystemApplications => "system_applications",
            IconSource::UserApplications => "user_applications",
            IconSource::CoreServices => "core_services",
            IconSource::Spotlight => "spotlight",
            IconSource::SystemProfiler => "system_profiler",
        }
    }

    /// The priority of the source.
    pub fn priority(&self) -> (r: i32)
        ensures
            r == priority_of(*self),
    {
        match self {
            IconSource::UWPApps => 100,
            IconSource::TaskbarPinned => 90,
            IconSource::StartMenu => 85,
            IconSource::CommonStartMenu => 80,
            IconSource::Desktop => 75,
            IconSource::PublicDesktop => 70,
            IconSource::QuickLaunch => 65,
            IconSource::AppDataPrograms => 60,
            IconSource::InstalledPrograms => 50,
            IconSource::ProgramFiles => 40,
            IconSource::ProgramFilesX86 => 35,
            IconSource::Applications => 90,
            IconSource::SystemApplications => 80,
            IconSource::UserApplications => 85,
            IconSource::CoreServices => 50,
            IconSource::Spotlight => 50,
            IconSource::SystemProfiler => 50,
        }
    }
}

/// The priority of a source identifier; 50 for one that names no source.
pub fn source_priority(id: &str) -> (r: i32)
    ensures
        r == match source_named(id@) {
            Some(s) => priority_of(s),
            None => 50i32,
        },
{
    match IconSource::from_str(id) {
        Some(s) => s.priority(),
        None => 50,
    }
}

/// The scanner of store apps; its enumeration runs in the shell, its
/// description here.
pub struct UWPScanner;

impl UWPScanner {
    /// The source this scanner reads.
    pub fn source(&self) -> (r: IconSource)
        ensures
            r == IconSource::UWPApps,
    {
        IconSource::UWPApps
    }

    /// The identifier of the scanner.
    pub fn id(&self) -> (r: &'static str)
        ensures
            r@ == source_id(IconSource::UWPApps),
    {
        IconSource::UWPApps.id()
    }

    /// The display name of the scanner.
    pub fn name(&self) -> (r: &'static str)
        ensures
            r@ == "应用商店应用 (UWP)"@,
    {
        "应用商店应用 (UWP)"
    }

    /// What the scanner finds.
    pub fn description(&self) -> (r: &'static str)
        ensures
            r@ == "从 Microsoft Store 安装的 UWP 应用"@,
    {
        "从 Microsoft Store 安装的 UWP 应用"
    }

    /// The emoji shown for the scanner.
    pub fn icon(&self) -> (r: &'static str)
        ensures
            r@ == "🛍️"@,
    {
        "🛍️"
    }
}

} // verus!
