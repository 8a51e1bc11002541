//! The caller-owned layout state the renderer reads and updates each frame,
//! and the status-line text it determines.

use vstd::prelude::*;
use vstd::string::StringExecFns;
use crate::finder::FinderState;
use crate::text::dec_of;
use crate::text::u64_dec;

verus! {

/// Which transient text-entry overlay is up, if any.
pub enum InputMode {
    GotoLine,
    Find,
    Other,
}

/// The transient text-entry overlay: absent, or a mode with its buffered
/// text.
pub enum BufferState {
    Disabled,
    Enabled(InputMode, String),
}

/// Border anchor positions found while the gutter is drawn, consumed later
/// in the same frame.
pub struct BordersState {
    pub x_row_separator: u16,
    pub y_first_record: u16,
}

/// Scroll offsets, per-frame outputs, and the descriptive fields the status
/// line shows.
pub struct CsvTableState {
    pub rows_offset: u64,
    pub cols_offset: u64,
    pub num_cols_rendered: u64,
    pub more_cols_to_show: bool,
    pub filename: String,
    pub total_line_number: Option<usize>,
    pub total_cols: usize,
    pub elapsed: Option<u64>,
    pub buffer_content: BufferState,
    pub finder_state: FinderState,
    pub borders_state: Option<BordersState>,
    pub debug: String,
}

impl CsvTableState {
    /// Machine limits: the 1-based positions shown in the status line must
    /// be representable.
    pub open spec fn wf(self) -> bool {
        self.rows_offset < u64::MAX && self.cols_offset < u64::MAX && self.finder_state.wf()
    }

    pub fn new(filename: String, total_cols: usize) -> (r: CsvTableState)
        ensures
            r.rows_offset == 0,
            r.cols_offset == 0,
            r.num_cols_rendered == 0,
            r.more_cols_to_show,
            r.filename == filename,
            r.total_line_number is None,
            r.total_cols == total_cols,
            r.elapsed is None,
            r.buffer_content is Disabled,
            r.finder_state is FinderInactive,
            r.borders_state is None,
            r.debug@ == Seq::<char>::empty(),
            r.wf(),
    {
        CsvTableState {
            rows_offset: 0,
            cols_offset: 0,
            num_cols_rendered: 0,
            more_cols_to_show: true,
            filename,
            total_line_number: None,
            total_cols,
            elapsed: None,
            buffer_content: BufferState::Disabled,
            finder_state: FinderState::FinderInactive,
            borders_state: None,
            debug: String::new(),
        }
    }

    pub fn set_rows_offset(&mut self, offset: u64)
        ensures
            *final(self) == (CsvTableState { rows_offset: offset, ..*old(self) }),
    {
        self.rows_offset = offset;
    }

    pub fn set_cols_offset(&mut self, offset: u64)
        ensures
            *final(self) == (CsvTableState { cols_offset: offset, ..*old(self) }),
    {
        self.cols_offset = offset;
    }

    pub(crate) fn set_more_cols_to_show(&mut self, value: bool)
        ensures
            *final(self) == (CsvTableState { more_cols_to_show: value, ..*old(self) }),
    {
        self.more_cols_to_show = value;
    }

    pub fn has_more_cols_to_show(&mut self) -> (r: bool)
        ensures
            *final(self) == *old(self),
            r == old(self).more_cols_to_show,
    {
        self.more_cols_to_show
    }

    pub(crate) fn set_num_cols_rendered(&mut self, n: u64)
        ensures
            *final(self) == (CsvTableState { num_cols_rendered: n, ..*old(self) }),
    {
        self.num_cols_rendered = n;
    }

    pub fn set_total_line_number(&mut self, n: usize)
        ensures
            *final(self) == (CsvTableState { total_line_number: Some(n), ..*old(self) }),
    {
        self.total_line_number = Some(n);
    }

    pub fn set_buffer(&mut self, mode: InputMode, buf: &str)
        ensures
            (final(self).buffer_content matches BufferState::Enabled(m, s) && m == mode && s@
                == buf@),
            (*final(self) == CsvTableState {
                buffer_content: final(self).buffer_content,
                ..*old(self)
            }),
    {
        self.buffer_content = BufferState::Enabled(mode, buf.to_owned());
    }

    pub fn reset_buffer(&mut self)
        ensures
            *final(self) == (CsvTableState { buffer_content: BufferState::Disabled, ..*old(self) }),
    {
        self.buffer_content = BufferState::Disabled;
    }
}

/// What the status line says, to the character: the overlay replaces
/// everything; otherwise the source name, row/column position, search
/// fragment, elapsed time and debug text, in that order.
pub open spec fn status_content(st: CsvTableState) -> Seq<char> {
    match st.buffer_content {
        BufferState::Enabled(mode, buf) => match mode {
            InputMode::GotoLine => "Go to line: "@ + buf@,
            InputMode::Find => "Find: "@ + buf@,
            InputMode::Other => buf@,
        },
        BufferState::Disabled => {
            let total = match st.total_line_number {
                Some(n) => dec_of(n as nat),
                None => "?"@,
            };
            let finder_part = match st.finder_state {
                FinderState::FinderActive(a) => " "@ + a.fragment_spec(),
                FinderState::FinderInactive => Seq::<char>::empty(),
            };
            let elapsed_part = match st.elapsed {
                Some(e) => " ["@ + dec_of(e as nat) + "ms]"@,
                None => Seq::<char>::empty(),
            };
            let debug_part = if st.debug@.len() > 0 {
                " (debug: "@ + st.debug@ + ")"@
            } else {
                Seq::<char>::empty()
            };
            st.filename@ + " [Row "@ + dec_of((st.rows_offset + 1) as nat) + "/"@ + total + ", Col "@
                + dec_of((st.cols_offset + 1) as nat) + "/"@ + dec_of(st.total_cols as nat) + "]"@
                + finder_part + elapsed_part + debug_part
        },
    }
}

/// Render the status-line text.
pub fn status_text(st: &CsvTableState) -> (r: String)
    requires
        st.wf(),
    ensures
        r@ == status_content(*st),
{
    match &st.buffer_content {
        BufferState::Enabled(mode, buf) => {
            let mut content: String;
            match mode {
                InputMode::GotoLine => {
                    content = String::from_str("Go to line: ");
                    content.append(buf.as_str());
                    proof {
                        assert(content@ =~= status_content(*st));
                    }
                },
                InputMode::Find => {
                    content = String::from_str("Find: ");
                    content.append(buf.as_str());
                    proof {
                        assert(content@ =~= status_content(*st));
                    }
                },
                InputMode::Other => {
                    content = buf.clone();
                    proof {
                        assert(content@ =~= status_content(*st));
                    }
                },
            }
            content
        },
        BufferState::Disabled => {
            let mut content = st.filename.clone();
            content.append(" [Row ");
            let row = u64_dec(st.rows_offset + 1);
            content.append(row.as_str());
            content.append("/");
            match &st.total_line_number {
                Some(n) => {
                    let total = u64_dec(*n as u64);
                    content.append(total.as_str());
                },
                None => {
                    content.append("?");
                },
            }
            content.append(", Col ");
            let col = u64_dec(st.cols_offset + 1);
            content.append(col.as_str());
            content.append("/");
            let tc = u64_dec(st.total_cols as u64);
            content.append(tc.as_str());
            content.append("]");
            match &st.finder_state {
                FinderState::FinderActive(a) => {
                    content.append(" ");
                    let frag = a.status_line();
                    content.append(frag.as_str());
                },
                FinderState::FinderInactive => {},
            }
            match &st.elapsed {
                Some(e) => {
                    content.append(" [");
                    let el = u64_dec(*e);
                    content.append(el.as_str());
                    content.append("ms]");
                },
                None => {},
            }
            if !st.debug.as_str().is_empty() {
                content.append(" (debug: ");
                content.append(st.debug.as_str());
                content.append(")");
            }
            proof {
                assert(content@ =~= status_content(*st));
            }
            content
        },
    }
}

} // verus!
