use vstd::prelude::*;

use crate::entity::{Factory, Troop};
use crate::game::{Command, GameState};

verus! {

/// Relies on `String::push`: the character is appended.
#[verifier::external_body]
fn push_char(s: &mut String, c: char)
    ensures
        final(s)@ == old(s)@.push(c),
{
    s.push(c);
}

/// The decimal digit `d`.
pub open spec fn digit_char(d: int) -> char {
    if d == 0 {
        '0'
    } else if d == 1 {
        '1'
    } else if d == 2 {
        '2'
    } else if d == 3 {
        '3'
    } else if d == 4 {
        '4'
    } else if d == 5 {
        '5'
    } else if d == 6 {
        '6'
    } else if d == 7 {
        '7'
    } else if d == 8 {
        '8'
    } else {
        '9'
    }
}

/// The decimal digits of `n`, most significant first.
pub open spec fn decimal(n: nat) -> Seq<char>
    decreases n,
{
    if n < 10 {
        seq![digit_char(n as int)]
    } else {
        decimal(n / 10).push(digit_char((n % 10) as int))
    }
}

/// `x` written in decimal, with a minus sign when negative.
pub open spec fn int_text(x: int) -> Seq<char> {
    if x < 0 {
        seq!['-'] + decimal((-x) as nat)
    } else {
        decimal(x as nat)
    }
}

/// The text that every output line starts with.
pub open spec fn banner() -> Seq<char> {
    seq!['M', 'S', 'G', ' ', 'E', 'l', ' ', 'P', 's', 'y', ' ', 'C', 'o', 'n', 'g', 'r', 'o', 'o']
}

pub open spec fn command_text(c: Command) -> Seq<char> {
    match c {
        Command::Upgrade(f) => seq!['I', 'N', 'C', ' '] + int_text(f as int),
        Command::Bomb(a, b) => seq!['B', 'O', 'M', 'B', ' '] + int_text(a as int) + seq![' ']
            + int_text(b as int),
    }
}

pub open spec fn move_text(o: Troop) -> Seq<char> {
    seq!['M', 'O', 'V', 'E', ' '] + int_text(o.source as int) + seq![' '] + int_text(
        o.destination as int,
    ) + seq![' '] + int_text(o.size as int)
}

/// Each command, after a `;`.
pub open spec fn commands_text(cs: Seq<Command>) -> Seq<char>
    decreases cs.len(),
{
    if cs.len() == 0 {
        Seq::empty()
    } else {
        commands_text(cs.drop_last()) + seq![';'] + command_text(cs.last())
    }
}

/// Each movement, after a `;`.
pub open spec fn moves_text(os: Seq<Troop>) -> Seq<char>
    decreases os.len(),
{
    if os.len() == 0 {
        Seq::empty()
    } else {
        moves_text(os.drop_last()) + seq![';'] + move_text(os.last())
    }
}

/// The line of a tick: the banner, then the commands, then the movements.
pub open spec fn orders_line(cs: Seq<Command>, os: Seq<Troop>) -> Seq<char> {
    banner() + commands_text(cs) + moves_text(os)
}

/// One line of the factory report: id, owner code, garrison, production.
pub open spec fn factory_text(f: Factory) -> Seq<char> {
    int_text(f.id as int) + seq![' '] + int_text(f.owner.sign()) + seq![' '] + int_text(
        f.garrison as int,
    ) + seq![' '] + int_text(f.production as int) + seq!['\n']
}

pub open spec fn factories_text(fs: Seq<Factory>) -> Seq<char>
    decreases fs.len(),
{
    if fs.len() == 0 {
        Seq::empty()
    } else {
        factories_text(fs.drop_last()) + factory_text(fs.last())
    }
}

fn digit(d: u64) -> (c: char)
    requires
        d < 10,
    ensures
        c == digit_char(d as int),
{
    if d == 0 {
        '0'
    } else if d == 1 {
        '1'
    } else if d == 2 {
        '2'
    } else if d == 3 {
        '3'
    } else if d == 4 {
        '4'
    } else if d == 5 {
        '5'
    } else if d == 6 {
        '6'
    } else if d == 7 {
        '7'
    } else if d == 8 {
        '8'
    } else {
        '9'
    }
}

fn push_all(s: &mut String, cs: &Vec<char>)
    ensures
        final(s)@ == old(s)@ + cs@,
{
    let mut k: usize = 0;
    while k < cs.len()
        invariant
            k <= cs@.len(),
            s@ == old(s)@ + cs@.take(k as int),
        decreases cs@.len() - k,
    {
        push_char(s, cs[k]);
        k = k + 1;
        proof {
            assert(s@ =~= old(s)@ + cs@.take(k as int));
        }
    }
    proof {
        assert(cs@.take(cs@.len() as int) =~= cs@);
    }
}

fn push_nat(s: &mut String, n: u64)
    ensures
        final(s)@ == old(s)@ + decimal(n as nat),
{
    let mut q = n;
    let mut ds: Vec<char> = Vec::new();
    loop
        invariant_except_break
            decimal(n as nat) == decimal(q as nat) + ds@,
        ensures
            decimal(n as nat) == ds@,
        decreases q,
    {
        if q < 10 {
            let ghost tail = ds@;
            ds.insert(0, digit(q));
            proof {
                assert(ds@ =~= seq![digit_char(q as int)] + tail);
            }
            break;
        }
        let ghost tail = ds@;
        ds.insert(0, digit(q % 10));
        proof {
            assert(ds@ =~= seq![digit_char((q % 10) as int)] + tail);
            assert(decimal(q as nat) == decimal((q / 10) as nat).push(digit_char((q % 10) as int)));
            assert(decimal((q / 10) as nat) + ds@ =~= decimal((q / 10) as nat).push(
                digit_char((q % 10) as int),
            ) + tail);
        }
        q = q / 10;
    }
    push_all(s, &ds);
}

/// Appends `x` in decimal.
fn push_int(s: &mut String, x: i64)
    ensures
        final(s)@ == old(s)@ + int_text(x as int),
{
    if x < 0 {
        push_char(s, '-');
        let magnitude: u64 = if x == i64::MIN {
            9223372036854775808u64
        } else {
            (-x) as u64
        };
        push_nat(s, magnitude);
        proof {
            assert(s@ =~= old(s)@ + int_text(x as int));
        }
    } else {
        push_nat(s, x as u64);
    }
}

/// Relies on `String::push_str`: the text is appended.
#[verifier::external_body]
fn push_text(s: &mut String, t: &str)
    ensures
        final(s)@ == old(s)@ + t@,
{
    s.push_str(t);
}

fn push_command(s: &mut String, c: Command)
    ensures
        final(s)@ == old(s)@ + command_text(c),
{
    match c {
        Command::Upgrade(f) => {
            push_text(s, "INC ");
            push_nat(s, f as u64);
            proof {
                reveal_strlit("INC ");
                assert(s@ =~= old(s)@ + command_text(c));
            }
        },
        Command::Bomb(a, b) => {
            push_text(s, "BOMB ");
            push_nat(s, a as u64);
            push_char(s, ' ');
            push_nat(s, b as u64);
            proof {
                reveal_strlit("BOMB ");
                assert(s@ =~= old(s)@ + command_text(c));
            }
        },
    }
}

fn push_move(s: &mut String, o: Troop)
    requires
        0 <= o.size,
    ensures
        final(s)@ == old(s)@ + move_text(o),
{
    push_text(s, "MOVE ");
    push_nat(s, o.source as u64);
    push_char(s, ' ');
    push_nat(s, o.destination as u64);
    push_char(s, ' ');
    push_nat(s, o.size as u64);
    proof {
        reveal_strlit("MOVE ");
        assert(s@ =~= old(s)@ + move_text(o));
    }
}

fn push_factory(s: &mut String, f: Factory)
    ensures
        final(s)@ == old(s)@ + factory_text(f),
{
    push_nat(s, f.id as u64);
    push_char(s, ' ');
    push_int(s, f.owner.code());
    push_char(s, ' ');
    push_int(s, f.garrison);
    push_char(s, ' ');
    push_int(s, f.production);
    push_char(s, '\n');
    proof {
        assert(s@ =~= old(s)@ + factory_text(f));
    }
}

impl GameState {
    /// The output line of this tick: the banner, then each command and each
    /// movement after a `;`. The commands and movements are then emptied.
    pub fn print_commands(&mut self) -> (r: String)
        requires
            old(self).wf(),
        ensures
            r@ == orders_line(old(self).commands@, old(self).orders@),
            final(self).wf(),
            final(self).commands@.len() == 0,
            final(self).orders@.len() == 0,
            final(self).links == old(self).links,
            final(self).neighbors == old(self).neighbors,
            final(self).factories == old(self).factories,
            final(self).troops == old(self).troops,
            final(self).bomb_count == old(self).bomb_count,
            final(self).bomb_last == old(self).bomb_last,
    {
        let ghost cs = self.commands@;
        let ghost os = self.orders@;
        let mut line = String::new();
        push_text(&mut line, "MSG El Psy Congroo");
        proof {
            reveal_strlit("MSG El Psy Congroo");
            assert(line@ =~= banner());
            assert(cs.take(0) =~= Seq::<Command>::empty());
        }
        let mut k: usize = 0;
        while k < self.commands.len()
            invariant
                self.wf(),
                cs == self.commands@,
                k <= cs.len(),
                line@ == banner() + commands_text(cs.take(k as int)),
            decreases cs.len() - k,
        {
            let c = self.commands[k];
            push_char(&mut line, ';');
            push_command(&mut line, c);
            proof {
                assert(cs.take(k + 1).drop_last() =~= cs.take(k as int));
                assert(line@ =~= banner() + commands_text(cs.take(k + 1)));
            }
            k = k + 1;
        }
        proof {
            assert(cs.take(cs.len() as int) =~= cs);
            assert(os.take(0) =~= Seq::<Troop>::empty());
        }
        let mut m: usize = 0;
        while m < self.orders.len()
            invariant
                self.wf(),
                os == self.orders@,
                m <= os.len(),
                line@ == banner() + commands_text(cs) + moves_text(os.take(m as int)),
            decreases os.len() - m,
        {
            let o = self.orders[m];
            proof {
                assert(crate::simulation::valid_troop(os[m as int], self.factories@.len() as int));
            }
            push_char(&mut line, ';');
            push_move(&mut line, o);
            proof {
                assert(os.take(m + 1).drop_last() =~= os.take(m as int));
                assert(line@ =~= banner() + commands_text(cs) + moves_text(os.take(m + 1)));
            }
            m = m + 1;
        }
        proof {
            assert(os.take(os.len() as int) =~= os);
        }
        self.commands.clear();
        self.orders.clear();
        line
    }

    /// The factory report: one line per factory with its id, owner code,
    /// garrison and production.
    pub fn print_factories(&self) -> (r: String)
        ensures
            r@ == factories_text(self.factories@),
    {
        let ghost fs = self.factories@;
        let mut text = String::new();
        proof {
            assert(fs.take(0) =~= Seq::<Factory>::empty());
        }
        let mut k: usize = 0;
        while k < self.factories.len()
            invariant
                fs == self.factories@,
                k <= fs.len(),
                text@ == factories_text(fs.take(k as int)),
            decreases fs.len() - k,
        {
            push_factory(&mut text, self.factories[k]);
            proof {
                assert(fs.take(k + 1).drop_last() =~= fs.take(k as int));
            }
            k = k + 1;
        }
        proof {
            assert(fs.take(fs.len() as int) =~= fs);
        }
        text
    }
}

} // verus!
