//! Compiled-in reference data for the heuristic capability matcher: the
//! import-name and string tables mapping to MITRE ATT&CK techniques.
//!
//! Each entry is `(pattern, rule, attack_id, attack_name, severity)`.
//! Technique ids and names come from the ATT&CK catalog.
use vstd::prelude::*;

verus! {

/// `(pattern, rule, attack_id, attack_name, severity)`.
pub type MapEntry = (&'static str, &'static str, &'static str, &'static str, &'static str);

/// Import API name (matched exactly, ignoring ASCII case) to technique.
pub const API_MAP: [MapEntry; 52] = [
    ("VirtualAllocEx", "inject:VirtualAllocEx", "T1055", "Process Injection", "high"),
    ("WriteProcessMemory", "inject:WriteProcessMemory", "T1055", "Process Injection", "high"),
    ("CreateRemoteThread", "inject:CreateRemoteThread", "T1055", "Process Injection", "high"),
    ("NtCreateThreadEx", "inject:NtCreateThreadEx", "T1055", "Process Injection", "high"),
    ("QueueUserAPC", "inject:QueueUserAPC", "T1055.004", "Process Injection: Asynchronous Procedure Call", "high"),
    ("RtlCreateUserThread", "inject:RtlCreateUserThread", "T1055", "Process Injection", "high"),
    ("VirtualProtect", "inject:VirtualProtect", "T1055", "Process Injection", "medium"),
    ("VirtualProtectEx", "inject:VirtualProtectEx", "T1055", "Process Injection", "medium"),
    ("SetThreadContext", "inject:SetThreadContext", "T1055.012", "Process Injection: Process Hollowing", "high"),
    ("RegSetValueExA", "persist:RegSetValueEx", "T1547.001", "Boot or Logon Autostart Execution: Registry Run Keys", "medium"),
    ("RegSetValueExW", "persist:RegSetValueEx", "T1547.001", "Boot or Logon Autostart Execution: Registry Run Keys", "medium"),
    ("RegCreateKeyExA", "persist:RegCreateKeyEx", "T1112", "Modify Registry", "low"),
    ("RegCreateKeyExW", "persist:RegCreateKeyEx", "T1112", "Modify Registry", "low"),
    ("InternetOpenUrlA", "net:InternetOpenUrl", "T1071", "Application Layer Protocol", "medium"),
    ("InternetOpenUrlW", "net:InternetOpenUrl", "T1071", "Application Layer Protocol", "medium"),
    ("InternetConnectA", "net:InternetConnect", "T1071", "Application Layer Protocol", "medium"),
    ("InternetConnectW", "net:InternetConnect", "T1071", "Application Layer Protocol", "medium"),
    ("WinHttpOpen", "net:WinHttpOpen", "T1071", "Application Layer Protocol", "medium"),
    ("WinHttpConnect", "net:WinHttpConnect", "T1071", "Application Layer Protocol", "medium"),
    ("URLDownloadToFileA", "net:URLDownloadToFile", "T1105", "Ingress Tool Transfer", "high"),
    ("URLDownloadToFileW", "net:URLDownloadToFile", "T1105", "Ingress Tool Transfer", "high"),
    ("socket", "net:socket", "T1071", "Application Layer Protocol", "low"),
    ("connect", "net:connect", "T1071", "Application Layer Protocol", "low"),
    ("WSAStartup", "net:WSAStartup", "T1071", "Application Layer Protocol", "low"),
    ("CryptEncrypt", "crypto:CryptEncrypt", "T1486", "Data Encrypted for Impact", "high"),
    ("BCryptEncrypt", "crypto:BCryptEncrypt", "T1486", "Data Encrypted for Impact", "high"),
    ("CryptAcquireContextA", "crypto:CryptAcquireContext", "T1486", "Data Encrypted for Impact", "low"),
    ("CryptAcquireContextW", "crypto:CryptAcquireContext", "T1486", "Data Encrypted for Impact", "low"),
    ("IsDebuggerPresent", "antidbg:IsDebuggerPresent", "T1622", "Debugger Evasion", "medium"),
    ("CheckRemoteDebuggerPresent", "antidbg:CheckRemoteDebuggerPresent", "T1622", "Debugger Evasion", "medium"),
    ("NtQueryInformationProcess", "antidbg:NtQueryInformationProcess", "T1622", "Debugger Evasion", "low"),
    ("AdjustTokenPrivileges", "token:AdjustTokenPrivileges", "T1134", "Access Token Manipulation", "medium"),
    ("OpenProcessToken", "token:OpenProcessToken", "T1134", "Access Token Manipulation", "low"),
    ("LookupPrivilegeValueA", "token:LookupPrivilegeValue", "T1134", "Access Token Manipulation", "low"),
    ("LookupPrivilegeValueW", "token:LookupPrivilegeValue", "T1134", "Access Token Manipulation", "low"),
    ("SetWindowsHookExA", "keylog:SetWindowsHookEx", "T1056.001", "Input Capture: Keylogging", "medium"),
    ("SetWindowsHookExW", "keylog:SetWindowsHookEx", "T1056.001", "Input Capture: Keylogging", "medium"),
    ("GetAsyncKeyState", "keylog:GetAsyncKeyState", "T1056.001", "Input Capture: Keylogging", "medium"),
    ("GetKeyState", "keylog:GetKeyState", "T1056.001", "Input Capture: Keylogging", "low"),
    ("ShellExecuteA", "exec:ShellExecute", "T1059", "Command and Scripting Interpreter", "medium"),
    ("ShellExecuteW", "exec:ShellExecute", "T1059", "Command and Scripting Interpreter", "medium"),
    ("WinExec", "exec:WinExec", "T1059", "Command and Scripting Interpreter", "medium"),
    ("CreateProcessA", "exec:CreateProcess", "T1106", "Native API", "low"),
    ("CreateProcessW", "exec:CreateProcess", "T1106", "Native API", "low"),
    ("LoadLibraryA", "loader:LoadLibrary", "T1106", "Native API", "info"),
    ("LoadLibraryW", "loader:LoadLibrary", "T1106", "Native API", "info"),
    ("GetProcAddress", "loader:GetProcAddress", "T1106", "Native API", "info"),
    ("GetTickCount", "antivm:GetTickCount", "T1497", "Virtualization/Sandbox Evasion", "low"),
    ("FindFirstFileA", "discover:FindFirstFile", "T1083", "File and Directory Discovery", "info"),
    ("FindFirstFileW", "discover:FindFirstFile", "T1083", "File and Directory Discovery", "info"),
    ("CreateServiceA", "persist:CreateService", "T1543.003", "Create or Modify System Process: Windows Service", "medium"),
    ("CreateServiceW", "persist:CreateService", "T1543.003", "Create or Modify System Process: Windows Service", "medium"),
];

/// Interesting lower-case substring (matched in the lower-cased string) to
/// technique.
pub const STRING_MAP: [MapEntry; 18] = [
    ("powershell", "exec:powershell", "T1059.001", "Command and Scripting Interpreter: PowerShell", "medium"),
    ("-encodedcommand", "exec:powershell_enc", "T1059.001", "Command and Scripting Interpreter: PowerShell", "high"),
    (" -enc ", "exec:powershell_enc", "T1059.001", "Command and Scripting Interpreter: PowerShell", "high"),
    ("cmd.exe /c", "exec:cmd", "T1059.003", "Command and Scripting Interpreter: Windows Command Shell", "medium"),
    ("cmd /c", "exec:cmd", "T1059.003", "Command and Scripting Interpreter: Windows Command Shell", "medium"),
    ("schtasks", "persist:schtasks", "T1053.005", "Scheduled Task/Job: Scheduled Task", "medium"),
    ("currentversion\\run", "persist:run_key", "T1547.001", "Boot or Logon Autostart Execution: Registry Run Keys", "high"),
    ("\\\\.\\pipe\\", "ipc:named_pipe", "T1559", "Inter-Process Communication", "low"),
    ("http://", "net:url", "T1071", "Application Layer Protocol", "info"),
    ("https://", "net:url", "T1071", "Application Layer Protocol", "info"),
    (".onion", "net:tor", "T1090.003", "Proxy: Multi-hop Proxy", "high"),
    ("your files have been encrypted", "ransom:note", "T1486", "Data Encrypted for Impact", "high"),
    ("vmware", "antivm:vmware", "T1497.001", "Virtualization/Sandbox Evasion: System Checks", "medium"),
    ("virtualbox", "antivm:virtualbox", "T1497.001", "Virtualization/Sandbox Evasion: System Checks", "medium"),
    ("vboxservice", "antivm:vboxservice", "T1497.001", "Virtualization/Sandbox Evasion: System Checks", "medium"),
    ("vmtoolsd", "antivm:vmtoolsd", "T1497.001", "Virtualization/Sandbox Evasion: System Checks", "medium"),
    ("qemu", "antivm:qemu", "T1497.001", "Virtualization/Sandbox Evasion: System Checks", "low"),
    ("sandboxie", "antivm:sandboxie", "T1497.001", "Virtualization/Sandbox Evasion: System Checks", "medium"),
];

/// Where the ATT&CK reference data comes from.
pub const ATTACK_SOURCE_URL: &'static str = "https://attack.mitre.org/techniques/";

} // verus!
