//! System information: the values the fetch shows, and how each is turned
//! into text.
use vstd::prelude::*;
use vstd::string::StrSliceExecFns;
use crate::ansi::{lemma_plain_text_visible, lemma_visible_concat, no_esc, state_after, stripped, Scan};
use crate::paint::{lemma_codes_have_no_letters, lemma_shown_reads_plainly, no_letters};
use crate::paint::{
    cyan, paint_cyan, paint_purple, paint_red_bold, paint_white, paint_yellow, purple, red_bold,
    shown, white, yellow,
};
use crate::text::{
    decimal, decimal_string, first_chars, first_chars_of, pad_right, padded, push_char,
    push_decimal, push_str, repeat_char, repeated, to_string_of,
};

verus! {

/// An address of a network interface.
pub enum IpAddress {
    /// An IPv4 address, most significant octet first.
    V4(u8, u8, u8, u8),
    /// An IPv6 address (never shown, so its value is not kept).
    V6,
}

/// A network interface and its addresses, in the order the system lists them.
pub struct NetInterface {
    pub name: String,
    pub addresses: Vec<IpAddress>,
}

/// A mounted disk: where it is mounted (`None` when the path is not valid
/// UTF-8) and its sizes in bytes.
pub struct DiskInfo {
    pub mount_point: Option<String>,
    pub total_space: u64,
    pub available_space: u64,
}

// ---------------------------------------------------------------------------
// Small values with fallbacks
// ---------------------------------------------------------------------------

/// The user's name, or `"victim"` when `USER` is unset.
pub open spec fn user_text(user_var: Option<String>) -> Seq<char> {
    match user_var {
        Some(u) => u@,
        None => "victim"@,
    }
}

/// The user's name from the value of `USER`, or `"victim"`.
pub fn username(user_var: &Option<String>) -> (r: String)
    ensures
        r@ == user_text(*user_var),
{
    match user_var {
        Some(u) => to_string_of(u.as_str()),
        None => to_string_of("victim"),
    }
}

/// The locale: `LC_ALL` when set, else `LANG`, else `"C"`.
pub open spec fn locale_text(lc_all: Option<String>, lang: Option<String>) -> Seq<char> {
    match lc_all {
        Some(l) => l@,
        None => match lang {
            Some(l) => l@,
            None => "C"@,
        },
    }
}

/// The system locale from the values of `LC_ALL` and `LANG`.
pub fn linux_locale(lc_all: &Option<String>, lang: &Option<String>) -> (r: String)
    ensures
        r@ == locale_text(*lc_all, *lang),
{
    match lc_all {
        Some(l) => to_string_of(l.as_str()),
        None => match lang {
            Some(l) => to_string_of(l.as_str()),
            None => to_string_of("C"),
        },
    }
}

/// The part of `s` after its last `/` (all of `s` when it has none).
pub open spec fn after_last_slash(s: Seq<char>) -> Seq<char>
    decreases s.len(),
{
    if s.len() == 0 {
        s
    } else if s.last() == '/' {
        seq![]
    } else {
        after_last_slash(s.drop_last()).push(s.last())
    }
}

/// The shell's name: the last component of `SHELL`, or `"unknown"`.
pub open spec fn shell_text(shell_var: Option<String>) -> Seq<char> {
    match shell_var {
        Some(s) => after_last_slash(s@),
        None => "unknown"@,
    }
}

/// The current shell's name (e.g. `zsh`) from the value of `SHELL`.
pub fn current_shell(shell_var: &Option<String>) -> (r: String)
    ensures
        r@ == shell_text(*shell_var),
{
    match shell_var {
        None => to_string_of("unknown"),
        Some(s) => {
            let n = s.as_str().unicode_len();
            let mut start: usize = n;
            assert(s@.take(n as int) =~= s@);
            assert(s@.skip(n as int) =~= Seq::<char>::empty());
            assert(after_last_slash(s@) + Seq::<char>::empty() =~= after_last_slash(s@));
            while start > 0 && s.as_str().get_char(start - 1) != '/'
                invariant
                    start <= n,
                    n == s@.len(),
                    after_last_slash(s@) == after_last_slash(s@.take(start as int)) + s@.skip(start as int),
                decreases start,
            {
                proof {
                    let t = s@.take(start as int);
                    assert(t.drop_last() =~= s@.take(start - 1));
                    assert(t.last() == s@[start - 1]);
                    assert(s@.skip(start - 1) =~= seq![s@[start - 1]] + s@.skip(start as int));
                }
                start = start - 1;
            }
            proof {
                if start > 0 {
                    assert(s@.take(start as int).last() == s@[start - 1]);
                }
                assert(after_last_slash(s@.take(start as int)) =~= Seq::<char>::empty());
                assert(s@.take(n as int) =~= s@);
            }
            let tail = s.as_str().substring_char(start, n);
            to_string_of(tail)
        },
    }
}

/// The brand of the first processor, or `"Unknown CPU"`.
pub open spec fn cpu_text(brands: Seq<String>) -> Seq<char> {
    if brands.len() > 0 {
        brands[0]@
    } else {
        "Unknown CPU"@
    }
}

/// The brand name of the first processor in `brands`.
pub fn cpu_model(brands: &Vec<String>) -> (r: String)
    ensures
        r@ == cpu_text(brands@),
{
    if brands.len() > 0 {
        to_string_of(brands[0].as_str())
    } else {
        to_string_of("Unknown CPU")
    }
}

// ---------------------------------------------------------------------------
// Network address
// ---------------------------------------------------------------------------

/// Whether an interface is a loopback one by name (its name starts with `lo`).
pub open spec fn is_loopback_name(name: Seq<char>) -> bool {
    name.len() >= 2 && name[0] == 'l' && name[1] == 'o'
}

/// An address the fetch may show: IPv4 and not in `127.0.0.0/8`.
pub open spec fn is_shown_address(a: IpAddress) -> bool {
    match a {
        IpAddress::V4(o1, _, _, _) => o1 != 127,
        IpAddress::V6 => false,
    }
}

/// The dotted-decimal text of an IPv4 address.
pub open spec fn dotted(o1: u8, o2: u8, o3: u8, o4: u8) -> Seq<char> {
    decimal(o1 as nat) + seq!['.'] + decimal(o2 as nat) + seq!['.'] + decimal(o3 as nat) + seq!['.']
        + decimal(o4 as nat)
}

/// The first address of `addrs` that may be shown.
pub open spec fn first_shown(addrs: Seq<IpAddress>) -> Option<IpAddress>
    decreases addrs.len(),
{
    if addrs.len() == 0 {
        None
    } else if is_shown_address(addrs[0]) {
        Some(addrs[0])
    } else {
        first_shown(addrs.drop_first())
    }
}

/// The first address that may be shown, over the non-loopback interfaces
/// in order.
pub open spec fn first_local_address(ifaces: Seq<NetInterface>) -> Option<IpAddress>
    decreases ifaces.len(),
{
    if ifaces.len() == 0 {
        None
    } else if !is_loopback_name(ifaces[0].name@) && first_shown(ifaces[0].addresses@) is Some {
        first_shown(ifaces[0].addresses@)
    } else {
        first_local_address(ifaces.drop_first())
    }
}

/// The text the fetch shows for the local address.
pub open spec fn ip_text(ifaces: Seq<NetInterface>) -> Seq<char> {
    match first_local_address(ifaces) {
        Some(IpAddress::V4(o1, o2, o3, o4)) => dotted(o1, o2, o3, o4),
        _ => "N/A"@,
    }
}

fn is_loopback(name: &str) -> (r: bool)
    ensures
        r == is_loopback_name(name@),
{
    name.unicode_len() >= 2 && name.get_char(0) == 'l' && name.get_char(1) == 'o'
}

proof fn lemma_first_shown_is_shown(addrs: Seq<IpAddress>)
    ensures
        first_shown(addrs) matches Some(a) ==> is_shown_address(a),
    decreases addrs.len(),
{
    if addrs.len() > 0 {
        lemma_first_shown_is_shown(addrs.drop_first());
    }
}

fn first_shown_in(addrs: &Vec<IpAddress>) -> (r: Option<(u8, u8, u8, u8)>)
    ensures
        r is None <==> first_shown(addrs@) is None,
        first_shown(addrs@) matches Some(IpAddress::V4(o1, o2, o3, o4)) ==> r == Some((o1, o2, o3, o4)),
{
    proof { lemma_first_shown_is_shown(addrs@); }
    let mut i: usize = 0;
    assert(addrs@.skip(0) =~= addrs@);
    while i < addrs.len()
        invariant
            i <= addrs@.len(),
            first_shown(addrs@) == first_shown(addrs@.skip(i as int)),
        decreases addrs@.len() - i,
    {
        assert(addrs@.skip(i as int).drop_first() =~= addrs@.skip(i + 1));
        match &addrs[i] {
            IpAddress::V4(o1, o2, o3, o4) => {
                if *o1 != 127 {
                    return Some((*o1, *o2, *o3, *o4));
                }
            },
            IpAddress::V6 => {},
        }
        i = i + 1;
    }
    None
}

/// The first non-loopback IPv4 address in dotted form, or `"N/A"`.
pub fn local_ip(interfaces: &Vec<NetInterface>) -> (r: String)
    ensures
        r@ == ip_text(interfaces@),
{
    let mut i: usize = 0;
    assert(interfaces@.skip(0) =~= interfaces@);
    while i < interfaces.len()
        invariant
            i <= interfaces@.len(),
            first_local_address(interfaces@) == first_local_address(interfaces@.skip(i as int)),
        decreases interfaces@.len() - i,
    {
        assert(interfaces@.skip(i as int).drop_first() =~= interfaces@.skip(i + 1));
        let iface = &interfaces[i];
        if !is_loopback(iface.name.as_str()) {
            proof { lemma_first_shown_is_shown(iface.addresses@); }
            if let Some((o1, o2, o3, o4)) = first_shown_in(&iface.addresses) {
                let mut r = String::new();
                push_decimal(&mut r, o1 as u64);
                push_char(&mut r, '.');
                push_decimal(&mut r, o2 as u64);
                push_char(&mut r, '.');
                push_decimal(&mut r, o3 as u64);
                push_char(&mut r, '.');
                push_decimal(&mut r, o4 as u64);
                assert(r@ =~= dotted(o1, o2, o3, o4));
                return r;
            }
        }
        i = i + 1;
    }
    to_string_of("N/A")
}

// ---------------------------------------------------------------------------
// Disk usage and uptime
// ---------------------------------------------------------------------------

/// Bytes per GiB.
pub open spec fn gib() -> nat {
    1073741824
}

/// Whether a disk is mounted at `/`.
pub open spec fn is_root_disk(d: DiskInfo) -> bool {
    match d.mount_point {
        Some(m) => m@ == seq!['/'],
        None => false,
    }
}

/// The first disk mounted at `/`.
pub open spec fn root_disk(disks: Seq<DiskInfo>) -> Option<DiskInfo>
    decreases disks.len(),
{
    if disks.len() == 0 {
        None
    } else if is_root_disk(disks[0]) {
        Some(disks[0])
    } else {
        root_disk(disks.drop_first())
    }
}

/// `"{used} / {total} GiB"` for a disk, sizes in whole GiB, used being the
/// total less the available space (never below zero).
pub open spec fn usage_text(d: DiskInfo) -> Seq<char> {
    let total = d.total_space as nat / gib();
    let free = d.available_space as nat / gib();
    let used: nat = if total >= free { (total - free) as nat } else { 0 };
    decimal(used) + " / "@ + decimal(total) + " GiB"@
}

/// The usage text of the root partition, or `"N/A"`.
pub open spec fn disk_text(disks: Seq<DiskInfo>) -> Seq<char> {
    match root_disk(disks) {
        Some(d) => usage_text(d),
        None => "N/A"@,
    }
}

fn is_root_mount(m: &Option<String>) -> (r: bool)
    ensures
        r == match m {
            Some(p) => p@ == seq!['/'],
            None => false,
        },
{
    match m {
        Some(p) => {
            let s = p.as_str();
            let ok = s.unicode_len() == 1 && s.get_char(0) == '/';
            assert(ok ==> s@ =~= seq!['/']);
            ok
        },
        None => false,
    }
}

/// Used and total space of the root (`/`) partition in GiB.
pub fn disk_usage(disks: &Vec<DiskInfo>) -> (r: String)
    ensures
        r@ == disk_text(disks@),
{
    let mut i: usize = 0;
    assert(disks@.skip(0) =~= disks@);
    while i < disks.len()
        invariant
            i <= disks@.len(),
            root_disk(disks@) == root_disk(disks@.skip(i as int)),
        decreases disks@.len() - i,
    {
        assert(disks@.skip(i as int).drop_first() =~= disks@.skip(i + 1));
        let d = &disks[i];
        if is_root_mount(&d.mount_point) {
            let total = d.total_space / 1024 / 1024 / 1024;
            let free = d.available_space / 1024 / 1024 / 1024;
            assert(total == d.total_space as nat / gib());
            assert(free == d.available_space as nat / gib());
            let used = if total >= free { total - free } else { 0 };
            let mut r = String::new();
            push_decimal(&mut r, used);
            push_str(&mut r, " / ");
            push_decimal(&mut r, total);
            push_str(&mut r, " GiB");
            assert(r@ =~= usage_text(*d));
            return r;
        }
        i = i + 1;
    }
    to_string_of("N/A")
}

/// `"{d}d {h}h {m}m"` for an uptime of `secs` seconds, or `"{h}h {m}m"`
/// when it is under a day.
pub open spec fn uptime_text(secs: nat) -> Seq<char> {
    let days = secs / 86400;
    let hours = (secs % 86400) / 3600;
    let mins = (secs % 3600) / 60;
    if days > 0 {
        decimal(days) + seq!['d', ' '] + decimal(hours) + seq!['h', ' '] + decimal(mins) + seq!['m']
    } else {
        decimal(hours) + seq!['h', ' '] + decimal(mins) + seq!['m']
    }
}

/// Formats an uptime in seconds as days, hours and minutes.
pub fn uptime_string(uptime: u64) -> (r: String)
    ensures
        r@ == uptime_text(uptime as nat),
{
    let days = uptime / 86400;
    let hours = (uptime % 86400) / 3600;
    let mins = (uptime % 3600) / 60;
    let mut r = String::new();
    if days > 0 {
        push_decimal(&mut r, days);
        push_char(&mut r, 'd');
        push_char(&mut r, ' ');
    }
    push_decimal(&mut r, hours);
    push_char(&mut r, 'h');
    push_char(&mut r, ' ');
    push_decimal(&mut r, mins);
    push_char(&mut r, 'm');
    assert(r@ =~= uptime_text(uptime as nat));
    r
}


// ---------------------------------------------------------------------------
// The information lines
// ---------------------------------------------------------------------------

/// What the fetch shows, as read from the system and the environment.
pub struct SystemInfo {
    /// `USER`, when set to valid Unicode.
    pub user: Option<String>,
    pub host_name: Option<String>,
    pub os_name: Option<String>,
    pub kernel_version: Option<String>,
    /// The machine architecture (e.g. `x86_64`).
    pub arch: String,
    /// Seconds since boot.
    pub uptime: u64,
    /// `SHELL`, when set to valid Unicode.
    pub shell: Option<String>,
    /// The brand of each processor, in order.
    pub cpu_brands: Vec<String>,
    /// The global processor usage in percent, as the float prints. The
    /// fetch shows only its first character: the usage line formats this text
    /// with a precision of one (`{:.1}`), which cuts a string to one
    /// character rather than rounding a number (so `12.5` shows as `1`).
    pub cpu_usage: String,
    /// Used and total memory in bytes.
    pub used_memory: u64,
    pub total_memory: u64,
    pub disks: Vec<DiskInfo>,
    pub process_count: usize,
    /// `LC_ALL` and `LANG`, when set to valid Unicode.
    pub lc_all: Option<String>,
    pub lang: Option<String>,
    pub interfaces: Vec<NetInterface>,
}

/// The text of an optional value, empty when absent.
pub open spec fn opt_text(o: Option<String>) -> Seq<char> {
    match o {
        Some(s) => s@,
        None => seq![],
    }
}

/// `line` is `label` padded to ten columns in bold red, `": "`, `value` in
/// the style `code`, then `suffix`.
pub open spec fn entry(label: Seq<char>, code: Seq<char>, value: Seq<char>, suffix: Seq<char>, line: Seq<char>) -> bool {
    exists|k: Seq<char>, v: Seq<char>|
        #![trigger shown(red_bold(), pad_right(label, 10), k), shown(code, value, v)]
        shown(red_bold(), pad_right(label, 10), k) && shown(code, value, v) && line == k + seq![':', ' '] + v + suffix
}

/// `line` is the user's name in bold red, `@`, and the host name in white.
pub open spec fn header(info: SystemInfo, line: Seq<char>) -> bool {
    exists|u: Seq<char>, h: Seq<char>|
        #![trigger shown(red_bold(), user_text(info.user), u), shown(white(), opt_text(info.host_name), h)]
        shown(red_bold(), user_text(info.user), u) && shown(white(), opt_text(info.host_name), h) && line == u
            + seq!['@'] + h
}

/// Memory in whole MiB.
pub open spec fn mib(bytes: u64) -> nat {
    bytes as nat / 1048576
}

/// `line` is the memory entry: used MiB in yellow, `" / "`, total MiB in
/// white, `" MiB"`.
pub open spec fn memory_entry(info: SystemInfo, line: Seq<char>) -> bool {
    exists|k: Seq<char>, u: Seq<char>, t: Seq<char>|
        #![trigger shown(red_bold(), pad_right("Memory"@, 10), k), shown(yellow(), decimal(mib(info.used_memory)), u), shown(white(), decimal(mib(info.total_memory)), t)]
        shown(red_bold(), pad_right("Memory"@, 10), k) && shown(yellow(), decimal(mib(info.used_memory)), u)
            && shown(white(), decimal(mib(info.total_memory)), t) && line == k + seq![':', ' '] + u + seq![' ', '/', ' '] + t
            + seq![' ', 'M', 'i', 'B']
}

/// The information lines for `info`, in the order the fetch shows them.
pub open spec fn fetch_lines_of(info: SystemInfo, lines: Seq<Seq<char>>) -> bool {
    &&& lines.len() == 14
    &&& header(info, lines[0])
    &&& shown(white(), repeated('─', 24), lines[1])
    &&& entry("OS"@, white(), opt_text(info.os_name), seq![], lines[2])
    &&& entry("Kernel"@, white(), opt_text(info.kernel_version), seq![], lines[3])
    &&& entry("Arch"@, white(), info.arch@, seq![], lines[4])
    &&& entry("Uptime"@, white(), uptime_text(info.uptime as nat), seq![], lines[5])
    &&& entry("Shell"@, white(), shell_text(info.shell), seq![], lines[6])
    &&& entry("CPU"@, white(), cpu_text(info.cpu_brands@), seq![], lines[7])
    &&& entry("CPU Usage"@, yellow(), first_chars(info.cpu_usage@, 1), seq!['%'], lines[8])
    &&& memory_entry(info, lines[9])
    &&& entry("Disk (/)"@, yellow(), disk_text(info.disks@), seq![], lines[10])
    &&& entry("Processes"@, purple(), decimal(info.process_count as nat), seq![], lines[11])
    &&& entry("Locale"@, purple(), locale_text(info.lc_all, info.lang), seq![], lines[12])
    &&& entry("Local IP"@, cyan(), ip_text(info.interfaces@), seq![], lines[13])
}

/// The styles the values of the fetch are shown in.
pub enum Ink {
    White,
    Yellow,
    Purple,
    Cyan,
}

pub open spec fn ink_code(ink: Ink) -> Seq<char> {
    match ink {
        Ink::White => white(),
        Ink::Yellow => yellow(),
        Ink::Purple => purple(),
        Ink::Cyan => cyan(),
    }
}

fn paint_in(ink: &Ink, text: &str) -> (r: String)
    ensures
        shown(ink_code(*ink), text@, r@),
{
    match ink {
        Ink::White => paint_white(text),
        Ink::Yellow => paint_yellow(text),
        Ink::Purple => paint_purple(text),
        Ink::Cyan => paint_cyan(text),
    }
}

fn key_of(label: &str) -> (k: String)
    ensures
        shown(red_bold(), pad_right(label@, 10), k@),
{
    let p = padded(label, 10);
    paint_red_bold(p.as_str())
}

/// One information line: `label`, `": "`, `value` in `ink`, then `suffix`.
fn entry_line(label: &str, ink: Ink, value: &str, suffix: Option<char>) -> (r: String)
    ensures
        entry(label@, ink_code(ink), value@, match suffix { Some(c) => seq![c], None => seq![] }, r@),
{
    let k = key_of(label);
    let v = paint_in(&ink, value);
    let mut r = to_string_of(k.as_str());
    push_char(&mut r, ':');
    push_char(&mut r, ' ');
    push_str(&mut r, v.as_str());
    if let Some(c) = suffix {
        push_char(&mut r, c);
    }
    let ghost sfx = match suffix { Some(c) => seq![c], None => Seq::<char>::empty() };
    assert(r@ =~= k@ + seq![':', ' '] + v@ + sfx);
    r
}

fn opt_string(o: &Option<String>) -> (r: String)
    ensures
        r@ == opt_text(*o),
{
    match o {
        Some(s) => to_string_of(s.as_str()),
        None => String::new(),
    }
}

fn header_line(info: &SystemInfo) -> (l0: String)
    ensures
        header(*info, l0@),
{
    let u = paint_red_bold(username(&info.user).as_str());
    let h = paint_white(opt_string(&info.host_name).as_str());
    let mut l0 = to_string_of(u.as_str());
    push_char(&mut l0, '@');
    push_str(&mut l0, h.as_str());
    assert(l0@ =~= u@ + seq!['@'] + h@);
    assert(header(*info, l0@));
    l0
}

fn memory_line(info: &SystemInfo) -> (l9: String)
    ensures
        memory_entry(*info, l9@),
{
    let k = key_of("Memory");
    let used = paint_yellow(decimal_string(info.used_memory / 1048576).as_str());
    let total = paint_white(decimal_string(info.total_memory / 1048576).as_str());
    let mut l9 = to_string_of(k.as_str());
    push_char(&mut l9, ':');
    push_char(&mut l9, ' ');
    push_str(&mut l9, used.as_str());
    push_char(&mut l9, ' ');
    push_char(&mut l9, '/');
    push_char(&mut l9, ' ');
    push_str(&mut l9, total.as_str());
    push_char(&mut l9, ' ');
    push_char(&mut l9, 'M');
    push_char(&mut l9, 'i');
    push_char(&mut l9, 'B');
    assert(l9@ =~= k@ + seq![':', ' '] + used@ + seq![' ', '/', ' '] + total@ + seq![' ', 'M', 'i', 'B']);
    assert(shown(yellow(), decimal(mib(info.used_memory)), used@));
    assert(shown(white(), decimal(mib(info.total_memory)), total@));
    assert(memory_entry(*info, l9@));
    l9
}

/// All the information lines, each a label and a coloured value.
pub fn fetch_lines(info: &SystemInfo) -> (lines: Vec<String>)
    ensures
        fetch_lines_of(*info, lines.deep_view()),
{
    let l0 = header_line(info);

    let rule = repeat_char('─', 24);
    let l1 = paint_white(rule.as_str());

    let l2 = entry_line("OS", Ink::White, opt_string(&info.os_name).as_str(), None);
    let l3 = entry_line("Kernel", Ink::White, opt_string(&info.kernel_version).as_str(), None);
    let l4 = entry_line("Arch", Ink::White, info.arch.as_str(), None);
    let l5 = entry_line("Uptime", Ink::White, uptime_string(info.uptime).as_str(), None);
    let l6 = entry_line("Shell", Ink::White, current_shell(&info.shell).as_str(), None);
    let l7 = entry_line("CPU", Ink::White, cpu_model(&info.cpu_brands).as_str(), None);
    let l8 = entry_line("CPU Usage", Ink::Yellow, first_chars_of(info.cpu_usage.as_str(), 1).as_str(), Some('%'));

    let l9 = memory_line(info);

    let l10 = entry_line("Disk (/)", Ink::Yellow, disk_usage(&info.disks).as_str(), None);
    let l11 = entry_line("Processes", Ink::Purple, decimal_string(info.process_count as u64).as_str(), None);
    let l12 = entry_line("Locale", Ink::Purple, linux_locale(&info.lc_all, &info.lang).as_str(), None);
    let l13 = entry_line("Local IP", Ink::Cyan, local_ip(&info.interfaces).as_str(), None);
    let lines = vec![l0, l1, l2, l3, l4, l5, l6, l7, l8, l9, l10, l11, l12, l13];
    assert(lines.deep_view() =~= seq![l0@, l1@, l2@, l3@, l4@, l5@, l6@, l7@, l8@, l9@, l10@, l11@, l12@, l13@]);
    lines
}


/// An uptime is shown as whole days, hours under 24 and minutes under 60,
/// which together account for all of it but the last partial minute.
pub proof fn law_uptime_parts(secs: nat)
    ensures
        ({
            let d = secs / 86400;
            let h = (secs % 86400) / 3600;
            let m = (secs % 3600) / 60;
            &&& h < 24
            &&& m < 60
            &&& d * 86400 + h * 3600 + m * 60 <= secs
            &&& secs < d * 86400 + h * 3600 + m * 60 + 60
        }),
{
    let d = secs / 86400;
    let r = secs % 86400;
    let h = r / 3600;
    assert(secs == d * 86400 + r && r < 86400) by (nonlinear_arith)
        requires
            d == secs / 86400,
            r == secs % 86400,
    ;
    assert(r == h * 3600 + r % 3600 && r % 3600 < 3600 && h < 24) by (nonlinear_arith)
        requires
            r < 86400,
            h == r / 3600,
    ;
    assert(secs % 3600 == r % 3600) by (nonlinear_arith)
        requires
            secs == d * 86400 + r,
            0 <= r,
    ;
    let m = (secs % 3600) / 60;
    assert(secs % 3600 == m * 60 + (secs % 3600) % 60 && (secs % 3600) % 60 < 60 && m < 60) by (nonlinear_arith)
        requires
            m == (secs % 3600) / 60,
            secs % 3600 < 3600,
    ;
}


// ---------------------------------------------------------------------------
// The information lines as the terminal shows them
// ---------------------------------------------------------------------------

proof fn lemma_no_esc_concat(a: Seq<char>, b: Seq<char>)
    requires
        no_esc(a),
        no_esc(b),
    ensures
        no_esc(a + b),
{
    assert forall|i: int| 0 <= i < (a + b).len() implies (a + b)[i] != crate::ansi::esc() by {
        if i < a.len() {
            assert((a + b)[i] == a[i]);
        } else {
            assert((a + b)[i] == b[i - a.len()]);
        }
    }
}

proof fn lemma_plain_pieces(a: Seq<char>)
    requires
        no_esc(a),
    ensures
        stripped(a) == a,
        state_after(a, Scan::Text) == Scan::Text,
{
    lemma_plain_text_visible(a);
}

/// Reading `a + b` when the scan leaves `a` in ordinary text.
proof fn lemma_reads_concat(a: Seq<char>, b: Seq<char>)
    requires
        state_after(a, Scan::Text) == Scan::Text,
    ensures
        stripped(a + b) == stripped(a) + stripped(b),
        state_after(a + b, Scan::Text) == state_after(b, Scan::Text),
{
    lemma_visible_concat(a, b, Scan::Text);
}

proof fn lemma_decimal_no_esc(n: nat)
    ensures
        no_esc(decimal(n)),
    decreases n,
{
    let c = crate::text::digit_char(n % 10);
    assert(c != crate::ansi::esc()) by {
        let d = n % 10;
        assert(((48 + d) as u8) as int == 48 + d);
    }
    if n >= 10 {
        lemma_decimal_no_esc(n / 10);
        let s = decimal(n);
        assert(s == decimal(n / 10).push(c));
        assert forall|i: int| 0 <= i < s.len() implies s[i] != crate::ansi::esc() by {
            if i < s.len() - 1 {
                assert(s[i] == decimal(n / 10)[i]);
            }
        }
    }
}

proof fn lemma_pad_no_esc(s: Seq<char>, w: nat)
    requires
        no_esc(s),
    ensures
        no_esc(pad_right(s, w)),
{
    if s.len() < w {
        let sp = repeated(' ', (w - s.len()) as nat);
        assert(no_esc(sp));
        lemma_no_esc_concat(s, sp);
    }
}

/// The three-piece line `k + sep + v + suffix` read plainly.
proof fn lemma_entry_reads_plainly(label: Seq<char>, code: Seq<char>, value: Seq<char>, suffix: Seq<char>, line: Seq<char>)
    requires
        entry(label, code, value, suffix, line),
        no_esc(pad_right(label, 10)),
        no_esc(value),
        no_esc(suffix),
        no_letters(code),
    ensures
        stripped(line) == pad_right(label, 10) + seq![':', ' '] + value + suffix,
{
    lemma_codes_have_no_letters();
    let pad = pad_right(label, 10);
    let sep = seq![':', ' '];
    let (k, v) = choose|k: Seq<char>, v: Seq<char>|
        shown(red_bold(), pad, k) && shown(code, value, v) && line == k + sep + v + suffix;
    lemma_shown_reads_plainly(red_bold(), pad, k);
    lemma_shown_reads_plainly(code, value, v);
    assert(no_esc(sep));
    lemma_plain_pieces(sep);
    lemma_plain_pieces(suffix);
    lemma_reads_concat(k, sep);
    lemma_reads_concat(k + sep, v);
    lemma_reads_concat(k + sep + v, suffix);
}

proof fn lemma_label_no_esc(label: Seq<char>)
    requires
        forall|i: int| 0 <= i < label.len() ==> ' ' <= #[trigger] label[i],
    ensures
        no_esc(pad_right(label, 10)),
{
    lemma_pad_no_esc(label, 10);
}

/// An information line with no suffix, read plainly.
proof fn lemma_simple_entry(label: Seq<char>, code: Seq<char>, value: Seq<char>, line: Seq<char>)
    requires
        entry(label, code, value, seq![], line),
        forall|i: int| 0 <= i < label.len() ==> ' ' <= #[trigger] label[i],
        no_esc(value),
        no_letters(code),
    ensures
        stripped(line) == pad_right(label, 10) + seq![':', ' '] + value,
{
    lemma_label_no_esc(label);
    let empty = Seq::<char>::empty();
    assert(no_esc(empty));
    lemma_entry_reads_plainly(label, code, value, empty, line);
    assert(pad_right(label, 10) + seq![':', ' '] + value + empty =~= pad_right(label, 10) + seq![':', ' '] + value);
}

proof fn lemma_header_plain(info: SystemInfo, line: Seq<char>)
    requires
        header(info, line),
        no_esc(user_text(info.user)),
        no_esc(opt_text(info.host_name)),
    ensures
        stripped(line) == user_text(info.user) + seq!['@'] + opt_text(info.host_name),
{
    lemma_codes_have_no_letters();
    let (u, h) = choose|u: Seq<char>, h: Seq<char>|
        shown(red_bold(), user_text(info.user), u) && shown(white(), opt_text(info.host_name), h) && line == u
            + seq!['@'] + h;
    lemma_shown_reads_plainly(red_bold(), user_text(info.user), u);
    lemma_shown_reads_plainly(white(), opt_text(info.host_name), h);
    assert(no_esc(seq!['@']));
    lemma_plain_pieces(seq!['@']);
    lemma_reads_concat(u, seq!['@']);
    lemma_reads_concat(u + seq!['@'], h);
}

proof fn lemma_memory_plain(info: SystemInfo, line: Seq<char>)
    requires
        memory_entry(info, line),
    ensures
        stripped(line) == pad_right("Memory"@, 10) + seq![':', ' '] + decimal(mib(info.used_memory)) + seq![' ', '/', ' ']
            + decimal(mib(info.total_memory)) + seq![' ', 'M', 'i', 'B'],
{
    lemma_codes_have_no_letters();
    reveal_strlit("Memory");
    lemma_label_no_esc("Memory"@);
    let used = decimal(mib(info.used_memory));
    let total = decimal(mib(info.total_memory));
    lemma_decimal_no_esc(mib(info.used_memory));
    lemma_decimal_no_esc(mib(info.total_memory));
    let (k, uu, tt) = choose|k: Seq<char>, u: Seq<char>, t: Seq<char>|
        shown(red_bold(), pad_right("Memory"@, 10), k) && shown(yellow(), used, u) && shown(white(), total, t)
            && line == k + seq![':', ' '] + u + seq![' ', '/', ' '] + t + seq![' ', 'M', 'i', 'B'];
    lemma_shown_reads_plainly(red_bold(), pad_right("Memory"@, 10), k);
    lemma_shown_reads_plainly(yellow(), used, uu);
    lemma_shown_reads_plainly(white(), total, tt);
    assert(no_esc(seq![':', ' ']));
    assert(no_esc(seq![' ', '/', ' ']));
    assert(no_esc(seq![' ', 'M', 'i', 'B']));
    lemma_plain_pieces(seq![':', ' ']);
    lemma_plain_pieces(seq![' ', '/', ' ']);
    lemma_plain_pieces(seq![' ', 'M', 'i', 'B']);
    lemma_reads_concat(k, seq![':', ' ']);
    lemma_reads_concat(k + seq![':', ' '], uu);
    lemma_reads_concat(k + seq![':', ' '] + uu, seq![' ', '/', ' ']);
    lemma_reads_concat(k + seq![':', ' '] + uu + seq![' ', '/', ' '], tt);
    lemma_reads_concat(k + seq![':', ' '] + uu + seq![' ', '/', ' '] + tt, seq![' ', 'M', 'i', 'B']);
}

proof fn lemma_uptime_no_esc(secs: nat)
    ensures
        no_esc(uptime_text(secs)),
{
    let d = decimal(secs / 86400);
    let h = decimal((secs % 86400) / 3600);
    let m = decimal((secs % 3600) / 60);
    lemma_decimal_no_esc(secs / 86400);
    lemma_decimal_no_esc((secs % 86400) / 3600);
    lemma_decimal_no_esc((secs % 3600) / 60);
    assert(no_esc(seq!['d', ' ']));
    assert(no_esc(seq!['h', ' ']));
    assert(no_esc(seq!['m']));
    lemma_no_esc_concat(h, seq!['h', ' ']);
    lemma_no_esc_concat(h + seq!['h', ' '], m);
    lemma_no_esc_concat(h + seq!['h', ' '] + m, seq!['m']);
    lemma_no_esc_concat(d, seq!['d', ' ']);
    lemma_no_esc_concat(d + seq!['d', ' '], h + seq!['h', ' '] + m + seq!['m']);
    assert(d + seq!['d', ' '] + h + seq!['h', ' '] + m + seq!['m'] =~= d + seq!['d', ' '] + (h + seq!['h', ' '] + m + seq!['m']));
}

/// Read without their escape sequences, the information lines are the
/// labels padded to ten columns, `": "` and the values, whenever the values
/// themselves hold no escape character.
pub proof fn law_fetch_lines_read_plainly(info: SystemInfo, lines: Seq<Seq<char>>)
    requires
        fetch_lines_of(info, lines),
        no_esc(user_text(info.user)),
        no_esc(opt_text(info.host_name)),
        no_esc(opt_text(info.os_name)),
        no_esc(opt_text(info.kernel_version)),
        no_esc(info.arch@),
        no_esc(shell_text(info.shell)),
        no_esc(cpu_text(info.cpu_brands@)),
        no_esc(first_chars(info.cpu_usage@, 1)),
        no_esc(locale_text(info.lc_all, info.lang)),
    ensures
        stripped(lines[0]) == user_text(info.user) + seq!['@'] + opt_text(info.host_name),
        stripped(lines[1]) == repeated('─', 24),
        stripped(lines[2]) == pad_right("OS"@, 10) + seq![':', ' '] + opt_text(info.os_name),
        stripped(lines[3]) == pad_right("Kernel"@, 10) + seq![':', ' '] + opt_text(info.kernel_version),
        stripped(lines[4]) == pad_right("Arch"@, 10) + seq![':', ' '] + info.arch@,
        stripped(lines[5]) == pad_right("Uptime"@, 10) + seq![':', ' '] + uptime_text(info.uptime as nat),
        stripped(lines[6]) == pad_right("Shell"@, 10) + seq![':', ' '] + shell_text(info.shell),
        stripped(lines[7]) == pad_right("CPU"@, 10) + seq![':', ' '] + cpu_text(info.cpu_brands@),
        stripped(lines[8]) == pad_right("CPU Usage"@, 10) + seq![':', ' '] + first_chars(info.cpu_usage@, 1) + seq!['%'],
        stripped(lines[9]) == pad_right("Memory"@, 10) + seq![':', ' '] + decimal(mib(info.used_memory)) + seq![' ', '/', ' ']
            + decimal(mib(info.total_memory)) + seq![' ', 'M', 'i', 'B'],
        stripped(lines[10]) == pad_right("Disk (/)"@, 10) + seq![':', ' '] + disk_text(info.disks@),
        stripped(lines[11]) == pad_right("Processes"@, 10) + seq![':', ' '] + decimal(info.process_count as nat),
        stripped(lines[12]) == pad_right("Locale"@, 10) + seq![':', ' '] + locale_text(info.lc_all, info.lang),
        stripped(lines[13]) == pad_right("Local IP"@, 10) + seq![':', ' '] + ip_text(info.interfaces@),
{
    lemma_codes_have_no_letters();
    lemma_header_plain(info, lines[0]);
    assert(no_esc(repeated('─', 24)));
    lemma_shown_reads_plainly(white(), repeated('─', 24), lines[1]);
    assert(stripped(lines[2]) == pad_right("OS"@, 10) + seq![':', ' '] + opt_text(info.os_name)) by {
        reveal_strlit("OS");
        lemma_simple_entry("OS"@, white(), opt_text(info.os_name), lines[2]);
    }
    assert(stripped(lines[3]) == pad_right("Kernel"@, 10) + seq![':', ' '] + opt_text(info.kernel_version)) by {
        reveal_strlit("Kernel");
        lemma_simple_entry("Kernel"@, white(), opt_text(info.kernel_version), lines[3]);
    }
    assert(stripped(lines[4]) == pad_right("Arch"@, 10) + seq![':', ' '] + info.arch@) by {
        reveal_strlit("Arch");
        lemma_simple_entry("Arch"@, white(), info.arch@, lines[4]);
    }
    assert(stripped(lines[5]) == pad_right("Uptime"@, 10) + seq![':', ' '] + uptime_text(info.uptime as nat)) by {
        reveal_strlit("Uptime");
        lemma_uptime_no_esc(info.uptime as nat);
        lemma_simple_entry("Uptime"@, white(), uptime_text(info.uptime as nat), lines[5]);
    }
    assert(stripped(lines[6]) == pad_right("Shell"@, 10) + seq![':', ' '] + shell_text(info.shell)) by {
        reveal_strlit("Shell");
        lemma_simple_entry("Shell"@, white(), shell_text(info.shell), lines[6]);
    }
    assert(stripped(lines[7]) == pad_right("CPU"@, 10) + seq![':', ' '] + cpu_text(info.cpu_brands@)) by {
        reveal_strlit("CPU");
        lemma_simple_entry("CPU"@, white(), cpu_text(info.cpu_brands@), lines[7]);
    }
    assert(stripped(lines[8]) == pad_right("CPU Usage"@, 10) + seq![':', ' '] + first_chars(info.cpu_usage@, 1) + seq!['%']) by {
        reveal_strlit("CPU Usage");
        lemma_label_no_esc("CPU Usage"@);
        assert(no_esc(seq!['%']));
        lemma_entry_reads_plainly("CPU Usage"@, yellow(), first_chars(info.cpu_usage@, 1), seq!['%'], lines[8]);
    }
    lemma_memory_plain(info, lines[9]);
    assert(stripped(lines[10]) == pad_right("Disk (/)"@, 10) + seq![':', ' '] + disk_text(info.disks@)) by {
        reveal_strlit("Disk (/)");
        lemma_disk_text_no_esc(info.disks@);
        lemma_simple_entry("Disk (/)"@, yellow(), disk_text(info.disks@), lines[10]);
    }
    assert(stripped(lines[11]) == pad_right("Processes"@, 10) + seq![':', ' '] + decimal(info.process_count as nat)) by {
        reveal_strlit("Processes");
        lemma_decimal_no_esc(info.process_count as nat);
        lemma_simple_entry("Processes"@, purple(), decimal(info.process_count as nat), lines[11]);
    }
    assert(stripped(lines[12]) == pad_right("Locale"@, 10) + seq![':', ' '] + locale_text(info.lc_all, info.lang)) by {
        reveal_strlit("Locale");
        lemma_simple_entry("Locale"@, purple(), locale_text(info.lc_all, info.lang), lines[12]);
    }
    assert(stripped(lines[13]) == pad_right("Local IP"@, 10) + seq![':', ' '] + ip_text(info.interfaces@)) by {
        reveal_strlit("Local IP");
        lemma_ip_text_no_esc(info.interfaces@);
        lemma_simple_entry("Local IP"@, cyan(), ip_text(info.interfaces@), lines[13]);
    }
}

proof fn lemma_disk_text_no_esc(disks: Seq<DiskInfo>)
    ensures
        no_esc(disk_text(disks)),
{
    reveal_strlit(" / ");
    reveal_strlit(" GiB");
    reveal_strlit("N/A");
    match root_disk(disks) {
        Some(d) => {
            let total = d.total_space as nat / gib();
            let free = d.available_space as nat / gib();
            let used: nat = if total >= free { (total - free) as nat } else { 0 };
            lemma_decimal_no_esc(used);
            lemma_decimal_no_esc(total);
            assert(no_esc(" / "@));
            assert(no_esc(" GiB"@));
            lemma_no_esc_concat(decimal(used), " / "@);
            lemma_no_esc_concat(decimal(used) + " / "@, decimal(total));
            lemma_no_esc_concat(decimal(used) + " / "@ + decimal(total), " GiB"@);
        },
        None => {
            assert(no_esc("N/A"@));
        },
    }
}

proof fn lemma_ip_text_no_esc(ifaces: Seq<NetInterface>)
    ensures
        no_esc(ip_text(ifaces)),
{
    reveal_strlit("N/A");
    match first_local_address(ifaces) {
        Some(IpAddress::V4(o1, o2, o3, o4)) => {
            let dot = seq!['.'];
            assert(no_esc(dot));
            lemma_decimal_no_esc(o1 as nat);
            lemma_decimal_no_esc(o2 as nat);
            lemma_decimal_no_esc(o3 as nat);
            lemma_decimal_no_esc(o4 as nat);
            lemma_no_esc_concat(decimal(o1 as nat), dot);
            lemma_no_esc_concat(decimal(o1 as nat) + dot, decimal(o2 as nat));
            lemma_no_esc_concat(decimal(o1 as nat) + dot + decimal(o2 as nat), dot);
            lemma_no_esc_concat(decimal(o1 as nat) + dot + decimal(o2 as nat) + dot, decimal(o3 as nat));
            lemma_no_esc_concat(decimal(o1 as nat) + dot + decimal(o2 as nat) + dot + decimal(o3 as nat), dot);
            lemma_no_esc_concat(decimal(o1 as nat) + dot + decimal(o2 as nat) + dot + decimal(o3 as nat) + dot, decimal(o4 as nat));
        },
        _ => {
            assert(no_esc("N/A"@));
        },
    }
}

/// The memory line shows the used and total memory in whole MiB: the full
/// 64-bit byte counts divided by 2^20, so a larger count never shows a
/// smaller number.
pub proof fn law_memory_line_shows_whole_mib(info: SystemInfo, lines: Seq<Seq<char>>)
    requires
        fetch_lines_of(info, lines),
    ensures
        stripped(lines[9]) == pad_right("Memory"@, 10) + seq![':', ' '] + decimal(info.used_memory as nat / 1048576)
            + seq![' ', '/', ' '] + decimal(info.total_memory as nat / 1048576) + seq![' ', 'M', 'i', 'B'],
        forall|b: u64, c: u64| b <= c ==> #[trigger] mib(b) <= #[trigger] mib(c),
{
    lemma_memory_plain(info, lines[9]);
    assert forall|b: u64, c: u64| b <= c implies #[trigger] mib(b) <= #[trigger] mib(c) by {
        vstd::arithmetic::div_mod::lemma_div_is_ordered(b as int, c as int, 1048576);
    }
}

} // verus!
