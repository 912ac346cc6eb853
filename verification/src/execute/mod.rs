use vstd::prelude::*;
use elf64::{ElfError, ELF64ProgramHeader, PageSpan, STACK_TOP};

pub mod elf64;

verus! {

/// Code segment selector of user mode: the descriptor table's user code
/// entry, with privilege level 3.
pub const USER_CODE_SELECTOR: u64 = 0x23;

/// Stack segment selector of user mode: the descriptor table's user data
/// entry, with privilege level 3.
pub const USER_DATA_SELECTOR: u64 = 0x1b;

/// Flags that a program starts with: interrupts enabled, and the bit that
/// is always set.
pub const USER_RFLAGS: u64 = 0x202;

/// Where a program starts: what the processor loads when it leaves the
/// kernel for it.
#[derive(Debug, Clone, Copy, PartialEq, Eq, Structural)]
pub struct UserContext {
    pub rip: u64,
    pub rsp: u64,
    pub cs: u64,
    pub ss: u64,
    pub rflags: u64,
}

impl UserContext {
    /// The context of a program that starts at `entry_point` with its stack
    /// pointer at `user_stack_top`: in user mode, with interrupts enabled.
    pub open spec fn spec_new(entry_point: u64, user_stack_top: u64) -> UserContext {
        UserContext {
            rip: entry_point,
            rsp: user_stack_top,
            cs: USER_CODE_SELECTOR,
            ss: USER_DATA_SELECTOR,
            rflags: USER_RFLAGS,
        }
    }

    /// Makes the context of a program that starts at `entry_point` with its
    /// stack pointer at `user_stack_top`.
    pub fn new(entry_point: u64, user_stack_top: u64) -> (context: Self)
        ensures
            context == Self::spec_new(entry_point, user_stack_top),
    {
        let cs: u64 = USER_CODE_SELECTOR;
        let ss: u64 = USER_DATA_SELECTOR;
        let rflags: u64 = USER_RFLAGS;
        Self { rip: entry_point, rsp: user_stack_top, cs, ss, rflags }
    }

    /// The words that a return from an interrupt takes off the stack, in
    /// the order in which they are pushed: stack segment, stack pointer,
    /// flags, code segment, instruction pointer.
    pub fn frame(&self) -> (words: [u64; 5])
        ensures
            words@ == seq![self.ss, self.rsp, self.rflags, self.cs, self.rip],
    {
        let words: [u64; 5] = [self.ss, self.rsp, self.rflags, self.cs, self.rip];
        assert(words@ =~= seq![self.ss, self.rsp, self.rflags, self.cs, self.rip]);
        words
    }
}

/// How far the load of a program has come.
#[derive(Debug, Clone, Copy, PartialEq, Eq, Structural)]
pub enum LoadState {
    /// Nothing of the file has been looked at.
    Unloaded,
    /// The header and the segment table are read; the segments are given
    /// their pages and their bytes, one after the other.
    HeaderParsed,
    /// Every segment has its pages and its bytes; the stack has none yet.
    SegmentsMapped,
    /// The stack has its pages: the program can be entered.
    StackMapped,
    /// The program was entered. Nothing comes after this.
    Transferred,
    /// The load was given up. What was mapped stays mapped.
    Aborted,
}

/// Why the load of a program was given up.
#[derive(Debug, Clone, Copy, PartialEq, Eq, Structural)]
pub enum LoadError {
    /// The file is no program.
    Malformed(ElfError),
    /// A segment's file bytes run over the end of the file.
    SegmentOutsideFile,
    /// A segment's addresses are none that pages can be found for.
    BadSegmentRange,
    /// No frame was left for a page.
    OutOfFrames,
    /// The loader was told of something that it had not asked for.
    Unexpected,
}

/// What the loader is told.
#[derive(Debug, Clone, Copy, PartialEq, Eq, Structural)]
pub enum LoadEvent {
    /// The file's bytes are at hand.
    Content,
    /// The pages asked for are mapped, each to a frame of its own.
    Mapped,
    /// No frame was left for one of the pages asked for.
    OutOfFrames,
    /// The segment asked for is loaded.
    Loaded,
}

/// What the loader asks for.
#[derive(Debug, Clone, Copy, PartialEq, Eq, Structural)]
pub enum LoadAction {
    /// Map these pages, each to a frame of its own.
    MapPages(PageSpan),
    /// Load the segment of this number to its address.
    LoadSegment(usize),
    /// Take the context and enter the program.
    Transfer,
    /// Give the load up.
    Abort(LoadError),
}

/// The load of one program.
#[derive(Debug)]
pub struct Loader {
    pub state: LoadState,
    /// The address at which the program starts.
    pub entry: u64,
    /// The segment table.
    pub segments: Vec<ELF64ProgramHeader>,
    /// Bytes of the file.
    pub content_len: usize,
    /// The segment in turn.
    pub segment: usize,
    /// Whether the segment in turn has its pages.
    pub mapped: bool,
}

/// What a load holds, its segment table as a sequence.
pub struct LoaderView {
    pub state: LoadState,
    pub entry: u64,
    pub segments: Seq<ELF64ProgramHeader>,
    pub content_len: usize,
    pub segment: usize,
    pub mapped: bool,
}

impl View for Loader {
    type V = LoaderView;

    open spec fn view(&self) -> LoaderView {
        LoaderView {
            state: self.state,
            entry: self.entry,
            segments: self.segments@,
            content_len: self.content_len,
            segment: self.segment,
            mapped: self.mapped,
        }
    }
}

impl Loader {
    /// A load of which nothing has been done.
    pub fn new() -> (loader: Self)
        ensures
            loader@ == (LoaderView {
                state: LoadState::Unloaded,
                entry: 0,
                segments: Seq::empty(),
                content_len: 0,
                segment: 0,
                mapped: false,
            }),
    {
        Loader {
            state: LoadState::Unloaded,
            entry: 0,
            segments: Vec::new(),
            content_len: 0,
            segment: 0,
            mapped: false,
        }
    }

    /// The context in which the program starts: at its entry point, on top
    /// of its stack. It can be taken once.
    pub fn enter(&mut self) -> (context: UserContext)
        requires
            old(self).state == LoadState::StackMapped,
        ensures
            context == UserContext::spec_new(old(self).entry, STACK_TOP),
            final(self)@ == (LoaderView { state: LoadState::Transferred, ..old(self)@ }),
    {
        self.state = LoadState::Transferred;
        UserContext::new(self.entry, STACK_TOP)
    }
}

/// A loader of programs of one format: a machine that is told what
/// happened and says what to do next.
pub trait Executor {
    /// The loader after `event`, and what it asks for.
    spec fn spec_load_executable(loader: LoaderView, event: LoadEvent, content: Seq<u8>) -> (
        LoaderView,
        LoadAction,
    );

    /// Takes `event` and says what to do next. `content` holds the file's
    /// bytes.
    fn load_executable(loader: &mut Loader, event: LoadEvent, content: &[u8]) -> (action:
        LoadAction)
        ensures
            (final(loader)@, action) == Self::spec_load_executable(old(loader)@, event, content@),
    ;
}

} // verus!
