//! Rendering of worker messages into terminal output.
//!
//! A rendered message is a sequence of [`RenderOp`] instructions: text to
//! write, plus bold/reset state changes.  The spec functions here pin the
//! exact instruction sequence for each message variant, so the aggregator
//! can state that its output is precisely the concatenation of each
//! message's rendering in arrival order.
use crate::message::{Message, MessageModel};
use vstd::prelude::*;

verus! {

/// Fixed guidance appended to every failure report, inviting a bug report.
pub const PLEASE_REPORT_THIS_BUG: &'static str =
    "This likely indicates a bug in either rustc or rustfix itself,\nand we would appreciate a bug report! You're likely to see \na number of compiler warnings after this message which rustfix\nattempted to fix but failed. If you could open an issue at\nhttps://github.com/rust-lang-nursery/rustfix/issues\nquoting the full output of this command we'd be very appreciative!\n\n";

/// One terminal-rendering instruction.
pub enum RenderOp {
    /// Switch the stream to its bold/highlighted style.
    Bold,
    /// Reset the stream to its default style.
    Reset,
    /// Write this text as-is.
    Text(String),
}

/// Mathematical form of a [`RenderOp`].
pub enum Piece {
    Bold,
    Reset,
    Text(Seq<char>),
}

impl View for RenderOp {
    type V = Piece;

    open spec fn view(&self) -> Piece {
        match self {
            RenderOp::Bold => Piece::Bold,
            RenderOp::Reset => Piece::Reset,
            RenderOp::Text(t) => Piece::Text(t@),
        }
    }
}

/// The instruction sequence a sequence of ops stands for.
pub open spec fn ops_model(ops: Seq<RenderOp>) -> Seq<Piece> {
    ops.map_values(|op: RenderOp| op@)
}

/// Appending one op appends its model.
pub broadcast proof fn lemma_ops_model_push(s: Seq<RenderOp>, op: RenderOp)
    ensures
        #[trigger] ops_model(s.push(op)) == ops_model(s).push(op@),
{
    assert(ops_model(s.push(op)) =~= ops_model(s).push(op@));
}

/// The model of a concatenation is the concatenation of the models.
pub broadcast proof fn lemma_ops_model_concat(a: Seq<RenderOp>, b: Seq<RenderOp>)
    ensures
        #[trigger] ops_model(a + b) == ops_model(a) + ops_model(b),
{
    assert(ops_model(a + b) =~= ops_model(a) + ops_model(b));
}

/// The text an instruction writes (state changes write nothing).
pub open spec fn piece_text(p: Piece) -> Seq<char> {
    match p {
        Piece::Text(t) => t,
        Piece::Bold => Seq::empty(),
        Piece::Reset => Seq::empty(),
    }
}

/// The plain text a whole instruction sequence writes, styling ignored.
pub open spec fn text_of(ps: Seq<Piece>) -> Seq<char>
    decreases ps.len(),
{
    if ps.len() == 0 {
        Seq::empty()
    } else {
        text_of(ps.drop_last()) + piece_text(ps.last())
    }
}

/// The bolded `warning: ` header that opens every failure report.
pub open spec fn warning_pieces() -> Seq<Piece> {
    seq![
        Piece::Bold,
        Piece::Text("warning"@),
        Piece::Reset,
        Piece::Text(": "@),
    ]
}

/// `"fix"`, pluralized exactly when more than one fix was applied.
pub open spec fn fix_word(n: nat) -> Seq<char> {
    if n > 1 {
        "fixes"@
    } else {
        "fix"@
    }
}

/// The one-line status for a successful rewrite.
pub open spec fn fixing_line(file: Seq<char>, n: nat) -> Seq<char> {
    "Fixing "@ + file + " ("@ + dec_rep(n) + " "@ + fix_word(n) + ")\n"@
}

/// Rendering of a `ReplaceFailed` message: warning header, bolded error
/// line naming the file, the raw diagnostic, then the fixed guidance block.
pub open spec fn replace_failed_pieces(file: Seq<char>, message: Seq<char>) -> Seq<Piece> {
    warning_pieces() + seq![
        Piece::Bold,
        Piece::Text("error applying suggestions to `"@ + file + "`\n"@),
        Piece::Reset,
        Piece::Text("The full error message was:\n\n> "@ + message + "\n\n"@),
        Piece::Text(PLEASE_REPORT_THIS_BUG@),
        Piece::Reset,
    ]
}

/// One bullet line of the failed-files list.
pub open spec fn bullet_line(file: Seq<char>) -> Seq<char> {
    "  * "@ + file + "\n"@
}

/// The bullet list naming every file still in error, in the given order.
pub open spec fn bullet_pieces(files: Seq<Seq<char>>) -> Seq<Piece> {
    Seq::new(files.len(), |i: int| Piece::Text(bullet_line(files[i])))
}

/// The header line of a `FixFailed` message, naming the crate when known.
pub open spec fn fix_failed_header(krate: Option<Seq<char>>) -> Seq<char> {
    match krate {
        Option::Some(k) => "failed to automatically apply fixes suggested by rustc to crate `"@
            + k + "`\n"@,
        Option::None => "failed to automatically apply fixes suggested by rustc\n"@,
    }
}

/// Rendering of a `FixFailed` message: warning header, bolded crate header,
/// the labeled bullet list when any files are named, then the guidance block.
pub open spec fn fix_failed_pieces(files: Seq<Seq<char>>, krate: Option<Seq<char>>) -> Seq<
    Piece,
> {
    warning_pieces() + seq![Piece::Bold, Piece::Text(fix_failed_header(krate))] + (if files.len()
        > 0 {
        seq![
            Piece::Text(
                "\nafter fixes were automatically applied the compiler reported errors within these files:\n\n"@,
            ),
        ] + bullet_pieces(files) + seq![Piece::Text("\n"@)]
    } else {
        Seq::<Piece>::empty()
    }) + seq![Piece::Text(PLEASE_REPORT_THIS_BUG@), Piece::Reset]
}

/// The exact rendering of a message.  Every rendering ends with a
/// [`Piece::Reset`], so styling never leaks into the next message.
pub open spec fn rendered(m: MessageModel) -> Seq<Piece> {
    match m {
        MessageModel::Fixing { file, fix_count } => seq![
            Piece::Text(fixing_line(file, fix_count)),
            Piece::Reset,
        ],
        MessageModel::ReplaceFailed { file, message } => replace_failed_pieces(file, message),
        MessageModel::FixFailed { files, krate } => fix_failed_pieces(files, krate),
    }
}

/// Styling never leaks out of a message: every rendering ends by resetting
/// the stream to its default style.
pub proof fn lemma_rendered_ends_reset(m: MessageModel)
    ensures
        rendered(m).len() > 0,
        rendered(m).last() == Piece::Reset,
{
}

/// The decimal digit character for `d` (meaningful for `d < 10`).
pub open spec fn digit_char(d: nat) -> char {
    if d == 0 {
        '0'
    } else if d == 1 {
        '1'
    } else if d == 2 {
        '2'
    } else if d == 3 {
        '3'
    } else if d == 4 {
        '4'
    } else if d == 5 {
        '5'
    } else if d == 6 {
        '6'
    } else if d == 7 {
        '7'
    } else if d == 8 {
        '8'
    } else {
        '9'
    }
}

/// Decimal representation of `n`, most significant digit first, no leading
/// zeros (except for `n == 0`, which is `"0"`).
pub open spec fn dec_rep(n: nat) -> Seq<char>
    decreases n,
{
    if n < 10 {
        seq![digit_char(n)]
    } else {
        dec_rep(n / 10).push(digit_char(n % 10))
    }
}

fn digit_str(d: usize) -> (r: &'static str)
    requires
        d < 10,
    ensures
        r@ == seq![digit_char(d as nat)],
{
    if d == 0 {
        let r = "0";
        proof {
            reveal_strlit("0");
            assert(r@ =~= seq![digit_char(d as nat)]);
        }
        r
    } else if d == 1 {
        let r = "1";
        proof {
            reveal_strlit("1");
            assert(r@ =~= seq![digit_char(d as nat)]);
        }
        r
    } else if d == 2 {
        let r = "2";
        proof {
            reveal_strlit("2");
            assert(r@ =~= seq![digit_char(d as nat)]);
        }
        r
    } else if d == 3 {
        let r = "3";
        proof {
            reveal_strlit("3");
            assert(r@ =~= seq![digit_char(d as nat)]);
        }
        r
    } else if d == 4 {
        let r = "4";
        proof {
            reveal_strlit("4");
            assert(r@ =~= seq![digit_char(d as nat)]);
        }
        r
    } else if d == 5 {
        let r = "5";
        proof {
            reveal_strlit("5");
            assert(r@ =~= seq![digit_char(d as nat)]);
        }
        r
    } else if d == 6 {
        let r = "6";
        proof {
            reveal_strlit("6");
            assert(r@ =~= seq![digit_char(d as nat)]);
        }
        r
    } else if d == 7 {
        let r = "7";
        proof {
            reveal_strlit("7");
            assert(r@ =~= seq![digit_char(d as nat)]);
        }
        r
    } else if d == 8 {
        let r = "8";
        proof {
            reveal_strlit("8");
            assert(r@ =~= seq![digit_char(d as nat)]);
        }
        r
    } else {
        let r = "9";
        proof {
            reveal_strlit("9");
            assert(r@ =~= seq![digit_char(d as nat)]);
        }
        r
    }
}

/// Renders `n` in decimal.
pub fn dec_string(n: usize) -> (r: String)
    ensures
        r@ == dec_rep(n as nat),
    decreases n,
{
    if n < 10 {
        let mut s = String::new();
        s.append(digit_str(n));
        proof {
            assert(s@ =~= dec_rep(n as nat));
        }
        s
    } else {
        let mut s = dec_string(n / 10);
        s.append(digit_str(n % 10));
        proof {
            assert(s@ =~= dec_rep(n as nat));
        }
        s
    }
}

pub(crate) fn push_warning(ops: &mut Vec<RenderOp>)
    ensures
        ops_model(final(ops)@) == ops_model(old(ops)@) + warning_pieces(),
{
    broadcast use lemma_ops_model_push;

    ops.push(RenderOp::Bold);
    ops.push(RenderOp::Text("warning".to_owned()));
    ops.push(RenderOp::Reset);
    ops.push(RenderOp::Text(": ".to_owned()));
    proof {
        assert(ops_model(ops@) =~= ops_model(old(ops)@) + warning_pieces());
    }
}

/// Renders one message into its exact instruction sequence.
pub fn render_message(msg: &Message) -> (r: Vec<RenderOp>)
    ensures
        ops_model(r@) == rendered(msg@),
{
    broadcast use lemma_ops_model_push;

    let mut ops: Vec<RenderOp> = Vec::new();
    match msg {
        Message::Fixing { file, fix_count } => {
            let mut line = String::new();
            line.append("Fixing ");
            line.append(file.as_str());
            line.append(" (");
            let count = dec_string(*fix_count);
            line.append(count.as_str());
            line.append(" ");
            if *fix_count > 1 {
                line.append("fixes");
            } else {
                line.append("fix");
            }
            line.append(")\n");
            proof {
                assert(line@ =~= fixing_line(file@, *fix_count as nat));
            }
            ops.push(RenderOp::Text(line));
            ops.push(RenderOp::Reset);
            proof {
                assert(ops_model(ops@) =~= rendered(msg@));
            }
        },
        Message::ReplaceFailed { file, message } => {
            push_warning(&mut ops);
            let mut error_line = String::new();
            error_line.append("error applying suggestions to `");
            error_line.append(file.as_str());
            error_line.append("`\n");
            let mut detail = String::new();
            detail.append("The full error message was:\n\n> ");
            detail.append(message.as_str());
            detail.append("\n\n");
            ops.push(RenderOp::Bold);
            ops.push(RenderOp::Text(error_line));
            ops.push(RenderOp::Reset);
            ops.push(RenderOp::Text(detail));
            ops.push(RenderOp::Text(PLEASE_REPORT_THIS_BUG.to_owned()));
            ops.push(RenderOp::Reset);
            proof {
                assert(ops_model(ops@) =~= rendered(msg@));
            }
        },
        Message::FixFailed { files, krate } => {
            let ghost fs: Seq<Seq<char>> = (match msg@ {
                MessageModel::FixFailed { files, krate } => files,
                _ => Seq::empty(),
            });
            let ghost kr: Option<Seq<char>> = (match msg@ {
                MessageModel::FixFailed { files, krate } => krate,
                _ => Option::None,
            });
            push_warning(&mut ops);
            let mut header = String::new();
            match krate {
                Option::Some(k) => {
                    header.append("failed to automatically apply fixes suggested by rustc to crate `");
                    header.append(k.as_str());
                    header.append("`\n");
                },
                Option::None => {
                    header.append("failed to automatically apply fixes suggested by rustc\n");
                },
            }
            proof {
                assert(header@ =~= fix_failed_header(kr));
            }
            ops.push(RenderOp::Bold);
            ops.push(RenderOp::Text(header));
            if files.len() > 0 {
                ops.push(RenderOp::Text(
                    "\nafter fixes were automatically applied the compiler reported errors within these files:\n\n".to_owned(),
                ));
                let ghost prefix = ops_model(ops@);
                let mut i: usize = 0;
                proof {
                    assert(fs.take(0) =~= Seq::<Seq<char>>::empty());
                    assert(bullet_pieces(fs.take(0)) =~= Seq::<Piece>::empty());
                    assert(ops_model(ops@) =~= prefix + bullet_pieces(fs.take(0)));
                }
                while i < files.len()
                    invariant
                        i <= files@.len(),
                        fs.len() == files@.len(),
                        fs == (match msg@ {
                            MessageModel::FixFailed { files, krate } => files,
                            _ => Seq::<Seq<char>>::empty(),
                        }),
                        forall|j: int| 0 <= j < files@.len() ==> fs[j] == files@[j]@,
                        ops_model(ops@) == prefix + bullet_pieces(fs.take(i as int)),
                    decreases files@.len() - i,
                {
                    let mut line = String::new();
                    line.append("  * ");
                    line.append(files[i].as_str());
                    line.append("\n");
                    proof {
                        assert(line@ =~= bullet_line(fs[i as int]));
                    }
                    let ghost ops_head = ops@;
                    ops.push(RenderOp::Text(line));
                    proof {
                        let ghost p = Piece::Text(bullet_line(fs[i as int]));
                        assert(ops_model(ops@) == ops_model(ops_head).push(p));
                        assert(bullet_pieces(fs.take(i as int + 1)) =~= bullet_pieces(
                            fs.take(i as int),
                        ).push(p));
                        assert((prefix + bullet_pieces(fs.take(i as int))).push(p) =~= prefix
                            + bullet_pieces(fs.take(i as int)).push(p));
                        assert(ops_model(ops@) == prefix + bullet_pieces(fs.take(i as int + 1)));
                    }
                    i += 1;
                }
                ops.push(RenderOp::Text("\n".to_owned()));
                proof {
                    assert(fs.take(fs.len() as int) =~= fs);
                }
            }
            ops.push(RenderOp::Text(PLEASE_REPORT_THIS_BUG.to_owned()));
            ops.push(RenderOp::Reset);
            proof {
                assert(ops_model(ops@) =~= rendered(msg@));
            }
        },
    }
    ops
}

/// The plain text a rendered instruction sequence writes, styling dropped.
pub fn plain_text(ops: &Vec<RenderOp>) -> (r: String)
    ensures
        r@ == text_of(ops_model(ops@)),
{
    let mut s = String::new();
    let mut i: usize = 0;
    while i < ops.len()
        invariant
            i <= ops@.len(),
            s@ == text_of(ops_model(ops@).take(i as int)),
        decreases ops@.len() - i,
    {
        match &ops[i] {
            RenderOp::Text(t) => {
                s.append(t.as_str());
            },
            RenderOp::Bold => {},
            RenderOp::Reset => {},
        }
        proof {
            let m = ops_model(ops@);
            assert(m.take(i as int + 1).drop_last() =~= m.take(i as int));
            assert(m.take(i as int + 1).last() == m[i as int]);
        }
        i += 1;
    }
    proof {
        assert(ops_model(ops@).take(ops@.len() as int) =~= ops_model(ops@));
    }
    s
}

} // verus!
