# bad-uefi

A UEFI program that plays a video (`\video.uefiv`) on the screen and a tone
track (`\audio.uefia`) on the PC speaker.

- `src/` is the verified library (Verus): the `.uefiv` container
  (`uefiv`), the audio and video event lists, their merge and the player's
  per-event decision (`va`), the placement of the video on the screen and the
  pixel squares of a frame (`video`, `uefiv::UEFIVideo::render_frame`), and
  the PIT/speaker values that start and stop a tone (`audio`).
- `app/` is the firmware program around it: reading files, port I/O, drawing
  with the graphics output protocol, waiting.
- `tests/` runs the library on concrete inputs.
