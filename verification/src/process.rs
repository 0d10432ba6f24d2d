//! A target process: finding it by executable name, locating a module in its
//! memory map, and finding a byte pattern in a module's memory.
//!
//! What the operating system hands over (the entries of `/proc`, the text of a
//! memory map, the bytes of a module) is read by the caller and passed in.
use vstd::prelude::*;
use crate::maps::{
    find_line_with, first_line_with, law_first_line_is_earliest, line_start, span_end,
    start_of_line, walk_span_end,
};
use crate::numparse::{parse_i32, parse_i32_spec};
use crate::pattern::{is_hit, parse_pattern, pattern_scan_all, pattern_spec};
use crate::text::{
    chars_of, contains_seq, eq_ignore_ascii_case, eq_ignore_ascii_case_seq, law_eq_ignore_ascii_case, lines, split_any, split_lines,
    split_on_any, views,
};

verus! {

/// Why an operation on a process failed.
#[derive(Debug, Clone, Copy, PartialEq, Eq, Structural)]
pub enum ProcessError {
    /// No running process has the executable name asked for.
    ProcessNotFound,
    /// No line of the memory map names the module.
    ModuleNotFound,
    /// The pattern occurs nowhere in the module.
    PatternNotFound,
    /// The executable does not begin with the ELF magic number.
    NotElf,
    /// The executable's ELF class is neither 32-bit nor 64-bit.
    UnknownElf,
    /// The memory mapping made in the target process failed.
    MmapFailed,
}

/// One entry of the process directory: its file name and, where it could be
/// read as text, the process's command line.
pub struct ProcEntry {
    pub name: String,
    pub cmdline: Option<String>,
}

/// A running process, known by its id.
#[derive(Debug, Clone, Copy, PartialEq, Eq, Structural)]
pub struct Process {
    pub pid: i32,
}

/// The executable name in a command line: the first NUL-separated argument,
/// cut after its last `/` or `\`.
pub open spec fn exe_name(cmdline: Seq<char>) -> Seq<char> {
    let program = split_on_any(cmdline, seq!['\0'])[0];
    split_on_any(program, seq!['/', '\\']).last()
}

/// The process id that a directory entry gives, if its name is a process id
/// and its command line names the executable `name` (ASCII case ignored).
pub open spec fn entry_pid(e: ProcEntry, name: Seq<char>) -> Option<int> {
    match parse_i32_spec(e.name@) {
        None => None,
        Some(pid) => match e.cmdline {
            None => None,
            Some(c) => if eq_ignore_ascii_case_seq(exe_name(c@), name) {
                Some(pid)
            } else {
                None
            },
        },
    }
}

/// The id that the first matching entry of `es` gives.
pub open spec fn first_pid(es: Seq<ProcEntry>, name: Seq<char>) -> Option<int>
    decreases es.len(),
{
    if es.len() == 0 {
        None
    } else {
        match entry_pid(es[0], name) {
            Some(p) => Some(p),
            None => first_pid(es.drop_first(), name),
        }
    }
}

/// The map line that names `module`: the first line in which it occurs.
pub open spec fn module_line(maps: Seq<char>, module: Seq<char>) -> Option<Seq<char>> {
    first_line_with(lines(maps), module)
}

/// Whether the start address of the module's line can be read: holds when no
/// line names the module, or when the first that does begins with a
/// hexadecimal address.
pub open spec fn base_readable(maps: Seq<char>, module: Seq<char>) -> bool {
    match module_line(maps, module) {
        None => true,
        Some(l) => line_start(l) is Some,
    }
}

/// The load address of `module`: the start address of its line.
pub open spec fn module_base(maps: Seq<char>, module: Seq<char>) -> Option<int> {
    match module_line(maps, module) {
        None => None,
        Some(l) => line_start(l),
    }
}

/// Where the image of `module` ends in the map.
pub open spec fn module_end(maps: Seq<char>, module: Seq<char>) -> Option<int> {
    match module_base(maps, module) {
        None => None,
        Some(b) => Some(span_end(lines(maps), b, false, b)),
    }
}

/// Whether the image of `module` ends no lower than it starts.
pub open spec fn size_readable(maps: Seq<char>, module: Seq<char>) -> bool {
    &&& base_readable(maps, module)
    &&& match (module_base(maps, module), module_end(maps, module)) {
        (Some(b), Some(e)) => b <= e,
        _ => true,
    }
}

/// Whether `i` is the lowest offset at which `pat` matches `mem`.
pub open spec fn is_first_hit(mem: Seq<u8>, pat: Seq<Option<u8>>, i: int) -> bool {
    is_hit(mem, pat, i) && forall|j: int| 0 <= j < i ==> !is_hit(mem, pat, j)
}

/// Whether the address of the first match of `pattern`, counted from `base`,
/// fits a `usize`.
pub open spec fn scan_fits(base: int, mem: Seq<u8>, pattern: Seq<char>) -> bool {
    forall|i: int| is_first_hit(mem, pattern_spec(pattern), i) ==> base + i <= usize::MAX
}

/// The executable name in a command line.
fn exe_name_of(cmdline: &Vec<char>) -> (r: Vec<char>)
    ensures
        r@ == exe_name(cmdline@),
{
    let mut nul: Vec<char> = Vec::new();
    nul.push('\0');
    assert(nul@ =~= seq!['\0']);
    let args = split_any(cmdline, &nul);
    let mut seps: Vec<char> = Vec::new();
    seps.push('/');
    seps.push('\\');
    assert(seps@ =~= seq!['/', '\\']);
    let program = &args[0];
    assert(program@ == split_on_any(cmdline@, seq!['\0'])[0]);
    let parts = split_any(program, &seps);
    let last = parts.len() - 1;
    let r = parts[last].clone();
    assert(r@ == views(parts@)[last as int]);
    r
}

/// The id that one directory entry gives, as `entry_pid` says.
fn pid_of_entry(e: &ProcEntry, name: &Vec<char>) -> (r: Option<i32>)
    ensures
        match r {
            Some(p) => entry_pid(*e, name@) == Some(p as int),
            None => entry_pid(*e, name@) is None,
        },
{
    let file_name = chars_of(e.name.as_str());
    let pid = match parse_i32(&file_name) {
        Some(p) => p,
        None => {
            return None;
        },
    };
    match &e.cmdline {
        None => None,
        Some(c) => {
            let cmd = chars_of(c.as_str());
            let exe = exe_name_of(&cmd);
            if eq_ignore_ascii_case(&exe, name) {
                Some(pid)
            } else {
                None
            }
        },
    }
}

/// Whether the load address of `module` can be read from `maps`
/// (`Process::get_module_base` asks it).
pub fn base_is_readable(maps: &str, module: &str) -> (b: bool)
    ensures
        b == base_readable(maps@, module@),
{
    let ls = split_lines(&chars_of(maps));
    let m = chars_of(module);
    match find_line_with(&ls, &m) {
        None => true,
        Some(i) => start_of_line(&ls[i]).is_some(),
    }
}

/// Whether the image size of `module` can be computed from `maps`
/// (`Process::get_module_size` asks it).
pub fn size_is_readable(maps: &str, module: &str) -> (b: bool)
    ensures
        b == size_readable(maps@, module@),
{
    let ls = split_lines(&chars_of(maps));
    let m = chars_of(module);
    match find_line_with(&ls, &m) {
        None => true,
        Some(i) => match start_of_line(&ls[i]) {
            None => false,
            Some(base) => base <= walk_span_end(&ls, base),
        },
    }
}

/// Whether the address of the first match fits a `usize`
/// (`Process::scan_module` asks it).
pub fn scan_is_addressable(module_base: usize, memory: &[u8], pattern: &str) -> (b: bool)
    ensures
        b == scan_fits(module_base as int, memory@, pattern@),
{
    let parsed = parse_pattern(pattern);
    let hits = pattern_scan_all(memory, parsed.as_slice());
    if hits.len() == 0 {
        assert forall|i: int| is_first_hit(memory@, pattern_spec(pattern@), i) implies module_base + i
            <= usize::MAX by {
            assert(hits@.contains(i as usize));
        }
        true
    } else {
        let first = hits[0];
        proof {
            lemma_first_of_sorted_is_first_hit(memory@, parsed@, hits@);
            law_first_hit_unique(memory@, parsed@, first as int);
        }
        module_base <= usize::MAX - first
    }
}

/// The first offset of an increasing list of every match is the first match.
proof fn lemma_first_of_sorted_is_first_hit(mem: Seq<u8>, pat: Seq<Option<u8>>, hits: Seq<usize>)
    requires
        hits.len() > 0,
        forall|k: int| 0 <= k < hits.len() ==> is_hit(mem, pat, #[trigger] hits[k] as int),
        forall|i: int| is_hit(mem, pat, i) ==> #[trigger] hits.contains(i as usize),
        forall|a: int, b: int| 0 <= a < b < hits.len() ==> hits[a] < hits[b],
    ensures
        is_first_hit(mem, pat, hits[0] as int),
{
    assert(is_hit(mem, pat, hits[0] as int));
    assert forall|j: int| 0 <= j < hits[0] implies !is_hit(mem, pat, j) by {
        if is_hit(mem, pat, j) {
            assert(hits.contains(j as usize));
            let w = choose|w: int| 0 <= w < hits.len() && hits[w] == j as usize;
            if w > 0 {
                assert(hits[0] < hits[w]);
            }
        }
    }
}

/// There is only one first match: the address that `scan_module` gives is
/// the only one its contract allows.
pub proof fn law_first_hit_unique(mem: Seq<u8>, pat: Seq<Option<u8>>, i: int)
    requires
        is_first_hit(mem, pat, i),
    ensures
        forall|j: int| is_first_hit(mem, pat, j) ==> j == i,
{
    assert forall|j: int| is_first_hit(mem, pat, j) implies j == i by {
        if j < i {
            assert(!is_hit(mem, pat, j));
        } else if j > i {
            assert(!is_hit(mem, pat, i));
        }
    }
}

/// The size of a module can be had exactly where its load address can:
/// `get_module_size` fails with `ModuleNotFound` exactly where
/// `get_module_base` does.
pub proof fn law_size_known_iff_base_known(maps: Seq<char>, module: Seq<char>)
    ensures
        module_base(maps, module) is Some <==> module_end(maps, module) is Some,
{
}

/// An entry matches only an executable name of exactly the length asked for:
/// a name that merely begins with the one wanted is no match.
pub proof fn law_entry_matches_whole_name(e: ProcEntry, name: Seq<char>)
    ensures
        entry_pid(e, name) is Some ==> (e.cmdline matches Some(c) && exe_name(c@).len()
            == name.len()),
{
    if let Some(c) = e.cmdline {
        law_eq_ignore_ascii_case(exe_name(c@), name);
    }
}

/// The load address is the start of the earliest map line that names the
/// module: where `module_base` gives an address, some line names the module,
/// no line before it does, and the address is that line's start address;
/// where the start address can be read and there is no address, no line
/// names the module.
pub proof fn law_module_base_is_earliest_line(maps: Seq<char>, module: Seq<char>)
    ensures
        match module_base(maps, module) {
            Some(b) => exists|i: int|
                0 <= i < lines(maps).len() && contains_seq(#[trigger] lines(maps)[i], module)
                    && line_start(lines(maps)[i]) == Some(b) && forall|j: int|
                    0 <= j < i ==> !contains_seq(#[trigger] lines(maps)[j], module),
            None => base_readable(maps, module) ==> forall|j: int|
                0 <= j < lines(maps).len() ==> !contains_seq(#[trigger] lines(maps)[j], module),
        },
{
    let ls = lines(maps);
    law_first_line_is_earliest(ls, module);
    match first_line_with(ls, module) {
        Some(l) => {
            let i = choose|i: int|
                0 <= i < ls.len() && #[trigger] ls[i] == l && contains_seq(ls[i], module) && forall|
                    j: int,
                | 0 <= j < i ==> !contains_seq(#[trigger] ls[j], module);
            assert(contains_seq(lines(maps)[i], module));
        },
        None => {},
    }
}

impl Process {
    /// Finds the running process whose executable is named `name`, ignoring
    /// the case of ASCII letters. `entries` are the entries of the process
    /// directory in the order it lists them; the first whose name is a process
    /// id and whose command line names the executable gives the process.
    pub fn new(name: &str, entries: &Vec<ProcEntry>) -> (r: Result<Process, ProcessError>)
        ensures
            match first_pid(entries@, name@) {
                Some(pid) => r matches Ok(p) && p.pid == pid,
                None => r == Err::<Process, ProcessError>(ProcessError::ProcessNotFound),
            },
    {
        let wanted = chars_of(name);
        let mut i: usize = 0;
        assert(entries@.skip(0) =~= entries@);
        while i < entries.len()
            invariant
                wanted@ == name@,
                0 <= i <= entries@.len(),
                first_pid(entries@, name@) == first_pid(entries@.skip(i as int), name@),
            decreases entries.len() - i,
        {
            assert(entries@.skip(i as int)[0] == entries@[i as int]);
            assert(entries@.skip(i as int).drop_first() =~= entries@.skip(i + 1));
            match pid_of_entry(&entries[i], &wanted) {
                Some(pid) => {
                    return Ok(Process { pid });
                },
                None => {},
            }
            i = i + 1;
        }
        Err(ProcessError::ProcessNotFound)
    }

    /// The load address of `module`: the start address of the first line of
    /// the memory map `maps` in which the module's name occurs.
    pub fn get_module_base(&self, maps: &str, module: &str) -> (r: Result<usize, ProcessError>)
        requires
            base_readable(maps@, module@),
        ensures
            match module_base(maps@, module@) {
                Some(b) => r matches Ok(a) && a == b,
                None => r == Err::<usize, ProcessError>(ProcessError::ModuleNotFound),
            },
    {
        let ls = split_lines(&chars_of(maps));
        let m = chars_of(module);
        match find_line_with(&ls, &m) {
            None => Err(ProcessError::ModuleNotFound),
            Some(i) => match start_of_line(&ls[i]) {
                Some(base) => Ok(base),
                None => Err(ProcessError::ModuleNotFound),
            },
        }
    }

    /// The size of the image of `module`: from its load address up to the end
    /// of the mapping that starts there, extended over each following
    /// anonymous `r-xp` mapping that continues it without a gap.
    pub fn get_module_size(&self, maps: &str, module: &str) -> (r: Result<usize, ProcessError>)
        requires
            size_readable(maps@, module@),
        ensures
            match (module_base(maps@, module@), module_end(maps@, module@)) {
                (Some(b), Some(e)) => r matches Ok(n) && n == e - b,
                _ => r == Err::<usize, ProcessError>(ProcessError::ModuleNotFound),
            },
    {
        let base = match self.get_module_base(maps, module) {
            Ok(b) => b,
            Err(e) => {
                return Err(e);
            },
        };
        let ls = split_lines(&chars_of(maps));
        let end = walk_span_end(&ls, base);
        Ok(end - base)
    }

    /// The address of the first match of `pattern` in the memory of a module
    /// loaded at `module_base`, whose bytes are `memory`.
    pub fn scan_module(&self, module_base: usize, memory: &[u8], pattern: &str) -> (r: Result<
        usize,
        ProcessError,
    >)
        requires
            scan_fits(module_base as int, memory@, pattern@),
        ensures
            (exists|i: int| is_hit(memory@, pattern_spec(pattern@), i)) <==> r is Ok,
            r is Err ==> r == Err::<usize, ProcessError>(ProcessError::PatternNotFound),
            r matches Ok(a) ==> a >= module_base && is_first_hit(
                memory@,
                pattern_spec(pattern@),
                a - module_base,
            ),
    {
        let parsed = parse_pattern(pattern);
        let hits = pattern_scan_all(memory, parsed.as_slice());
        if hits.len() == 0 {
            assert forall|i: int| !is_hit(memory@, pattern_spec(pattern@), i) by {
                if is_hit(memory@, pattern_spec(pattern@), i) {
                    assert(hits@.contains(i as usize));
                }
            }
            return Err(ProcessError::PatternNotFound);
        }
        let first = hits[0];
        proof {
            lemma_first_of_sorted_is_first_hit(memory@, parsed@, hits@);
        }
        Ok(module_base + first)
    }
}

} // verus!
