# frostify_gfx

A retained-mode toolkit for frosted-glass user interfaces. The library decides
what is drawn, what moves, and what the pointer hits; every function of it is
proved against its contract with Verus. The host program owns the window, the
GPU and the fonts.

## Layout

- `src/` is the library.
  - `scalar`, `order`, `signal`, `reactive`, `binds`: numbers, cells, and what follows
    them.
  - `node`, `layout`, `tree`, `dirty`, `scene`: the retained tree and its builders.
  - `scroll`, `flatten`, `input`, `overlay`: scrolling, painting order, hits, modals.
  - `anim`: curves, tweens and the timeline.
  - `gpu`: instance uploads, frame plans, timing slots, blur levels, the image atlas,
    readbacks.
  - `app`, `headless`, `config`, `hud`: events in, actions out.
  - `text`, `pixels`, `splash`: text metrics and the splash picture.
  - `*_laws`, `consistency`: what holds across functions.
- `tests/` runs the library on concrete values, on `f32` and on fixed point.
- `app/` is the host: winit, wgpu, cosmic-text and softbuffer around the library.

## Numbers

Geometry is generic over `Scalar`. The library brings `Fixed`, a fixed-point
number; the host uses `f32`. Contracts speak of a `Scalar`'s own operations, so
they say which operations are applied to which operands. Laws that need an order
among numbers, or rounding that keeps it, ask for that (`order`); those that need
exact arithmetic are stated of `Fixed`.

## What is trusted

The shelf allocator of `etagere`, the decoder of `png`, and `Vec::capacity`. The
doc comment of each says what is taken for granted.
