# browser

The engine of a web browser, verified with Verus: reading HTML and CSS, the document and its
indexes, selectors and the cascade, layout of blocks, flex containers and grids, painting,
canvases, forms, clicks, scripts, observers, custom elements, images, tabs and the bar above the
page.

`src/` is the library. What it needs from outside comes in as plain values: layout, for example,
is told how large a text or a picture is. When it lacks such an answer, it stops and says which one
it needs; it is then told and asked again.

`app/` is the program around it: the window, the network, fonts, drawings and everything that is
reckoned in floating point. It reads its font from the file given by `--font=`. With `--headless` it
opens the page without a window; `--snapshot=` then names the stored picture that the page is compared
with. No engine for scripts is linked: the library says which scripts are due, in what order, and
what they would be told, and the program runs none. `--hover-debugging` marks what is under the pointer, `--fps-counter` counts frames, and
`--profile-compute-node-styles` works out the styles of a page again and again.

`tests/` runs the library on small pages.
