use vstd::prelude::*;

verus! {

/// How a tree is rendered as markup.
#[derive(Debug, Clone, Copy)]
pub struct FormattingOptions {
    /// Double quotation marks or single
    pub double_quot: bool,
    /// Break tags onto new lines and split attributes when needed
    pub new_lines: bool,
    /// Max line length before attributes are split onto their own lines
    pub max_len: usize,
    /// The number of columns a tab stands for
    pub tab_size: u8,
}

/// The options that print the output nicely readable.
pub open spec fn pretty_options() -> FormattingOptions {
    FormattingOptions { double_quot: false, new_lines: true, max_len: 60, tab_size: 4 }
}

/// `n` tab characters.
pub open spec fn tabs(n: int) -> Seq<char> {
    Seq::new(n as nat, |i: int| '\t')
}

/// The indentation at depth `d`: one tab per full tab stop, none when the
/// tab size is zero.
pub open spec fn indent(o: FormattingOptions, d: int) -> Seq<char> {
    if o.tab_size == 0 || d < o.tab_size {
        Seq::empty()
    } else {
        tabs(d / (o.tab_size as int))
    }
}

/// The quote character of the options.
pub open spec fn quote_char(o: FormattingOptions) -> char {
    if o.double_quot {
        '"'
    } else {
        '\''
    }
}

impl FormattingOptions {
    /// Options that print the output nicely readable.
    pub fn pretty() -> (r: Self)
        ensures
            r == pretty_options(),
    {
        Self::default()
    }

    /// Options that print the output in a compact way.
    pub fn compact() -> (r: Self)
        ensures
            !r.double_quot,
            !r.new_lines,
            r.max_len == 0,
            r.tab_size == 0,
    {
        FormattingOptions { double_quot: false, new_lines: false, max_len: 0, tab_size: 0 }
    }

    /// The quote character.
    pub fn quotes(&self) -> (r: char)
        ensures
            r == quote_char(*self),
    {
        if self.double_quot {
            '"'
        } else {
            '\''
        }
    }

    /// Writes the indentation for `depth`.
    pub fn fmt_depth(&self, f: &mut String, depth: usize)
        ensures
            final(f)@ == old(f)@ + indent(*self, depth as int),
    {
        if self.tab_size == 0 || depth < self.tab_size as usize {
            proof {
                assert(old(f)@ + indent(*self, depth as int) =~= old(f)@);
            }
            return;
        }
        let n = depth / self.tab_size as usize;
        let mut i: usize = 0;
        proof {
            assert(old(f)@ + tabs(0) =~= old(f)@);
        }
        while i < n
            invariant
                i <= n,
                f@ == old(f)@ + tabs(i as int),
            decreases n - i,
        {
            proof {
                reveal_strlit("\t");
            }
            f.append("\t");
            proof {
                assert(old(f)@ + tabs(i + 1) =~= old(f)@ + tabs(i as int) + "\t"@);
            }
            i = i + 1;
        }
    }
}

impl Default for FormattingOptions {
    fn default() -> (r: Self)
        ensures
            !r.double_quot,
            r.new_lines,
            r.max_len == 60,
            r.tab_size == 4,
    {
        FormattingOptions { double_quot: false, new_lines: true, max_len: 60, tab_size: 4 }
    }
}

} // verus!
