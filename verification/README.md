# bevy_asky

Question-and-answer prompts for Bevy applications: text fields, passwords,
numbers, confirmations, toggles, checkboxes and radio buttons.

The prompts follow a model-view-controller design. `src/` holds, verified with
Verus, the models (`prompt`, `string_cursor`), what the controllers decide for
each key (`prompt::*::*_controller`, `focus`, `tab`) and what the views show
(`view::ascii`, `view::color`). The specifications are stated over plain
values: entities are `Entity` numbers and keys are the types of `keys`.

`app/` is the Bevy plugin around it: ECS components for the prompts, systems
that hand keyboard input to the controllers and write the views into UI text,
and commands to construct prompts.
