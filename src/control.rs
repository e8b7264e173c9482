use crate::field::Field;
use vstd::prelude::*;

verus! {

/// What the user asked for, read from the terminal.
#[derive(PartialEq, Eq, Structural, Clone, Copy, Debug)]
pub enum Command {
    /// Switch between auto-play and manual mode.
    TogglePlay,
    /// Advance one generation.
    Step,
    /// Put back the cells saved before the current run.
    Restore,
    /// Empty the board.
    Clear,
    /// Leave the program.
    Quit,
    /// Mark the cell at the cursor alive.
    Paint { x: i32, y: i32 },
    /// Mark the cell at the cursor dead.
    Erase { x: i32, y: i32 },
}

/// Whether a command is carried out while auto-play runs.
pub open spec fn honored_in_auto_play(command: Command) -> bool {
    command is TogglePlay || command is Quit
}

impl Field {
    /// Carries out one command. Only toggling and quitting are honoured while
    /// auto-play runs. Returns whether the program goes on.
    pub fn handle(&mut self, command: Command) -> (keep_running: bool)
        requires
            command is Step && !old(self).is_auto_play_enabled ==> old(self).step_count < u32::MAX,
        ensures
            keep_running == !(command is Quit),
            old(self).is_auto_play_enabled && !honored_in_auto_play(command) ==> old(
                self,
            ).unchanged_in(final(self)),
            !old(self).is_auto_play_enabled || honored_in_auto_play(command) ==> match command {
                Command::TogglePlay => {
                    &&& final(self).is_auto_play_enabled == !old(self).is_auto_play_enabled
                    &&& final(self).size == old(self).size
                    &&& final(self).cells@ == old(self).cells@
                    &&& final(self).backuped_cells == old(self).backuped_cells
                    &&& final(self).step_count == old(self).step_count
                },
                Command::Step => old(self).steps_to(final(self)),
                Command::Restore => old(self).restores_to(final(self)),
                Command::Clear => old(self).clears_to(final(self)),
                Command::Quit => old(self).unchanged_in(final(self)),
                Command::Paint { x, y } => {
                    &&& final(self).alive() == old(self).alive().insert((x as int, y as int))
                    &&& final(self).backuped_cells == old(self).backuped_cells
                    &&& final(self).step_count == old(self).step_count
                    &&& final(self).same_settings(old(self))
                },
                Command::Erase { x, y } => {
                    &&& final(self).alive() == old(self).alive().remove((x as int, y as int))
                    &&& final(self).backuped_cells == old(self).backuped_cells
                    &&& final(self).step_count == old(self).step_count
                    &&& final(self).same_settings(old(self))
                },
            },
            old(self).wf() ==> final(self).wf(),
    {
        match command {
            Command::TogglePlay => {
                self.toggle_auto_play();
                true
            },
            Command::Quit => false,
            _ if self.is_auto_play_enabled => true,
            Command::Step => {
                self.step();
                true
            },
            Command::Restore => {
                self.restore_backup();
                true
            },
            Command::Clear => {
                self.clear();
                true
            },
            Command::Paint { x, y } => {
                self.add_cell(&(x, y));
                true
            },
            Command::Erase { x, y } => {
                self.remove_cell(&(x, y));
                true
            },
        }
    }

    /// The redraw tick: advances one generation while auto-play runs.
    pub fn tick(&mut self)
        requires
            old(self).is_auto_play_enabled ==> old(self).step_count < u32::MAX,
        ensures
            old(self).is_auto_play_enabled ==> old(self).steps_to(final(self)),
            !old(self).is_auto_play_enabled ==> old(self).unchanged_in(final(self)),
            old(self).wf() ==> final(self).wf(),
    {
        if self.is_auto_play_enabled {
            self.step();
        }
    }
}

} // verus!
