# render_core

The verified core of a small instanced 2D renderer.

Draw state lives as byte images with change tracking (`state`). Uniform buffers, images,
single objects and key-ordered pools of objects (`uniform`, `single_object`, `object_pool`)
hand out their pending changes as update commands (`updates`), which a scene gathers in field
order (`scene`). On the renderer side, a registry (`registry`) checks each command against the
resources that exist and answers it with the action to take, or the reason it is refused. The
device-facing decisions (memory types, fill strategy, staging ranges, descriptor pool use,
command buffer alternation, calibrated timestamps) are in `device`, `staging`,
`descriptor_pool` and `command_pool`; window decisions in `app_control`.

`laws` states the properties that hold across operations, such as: a GPU copy fed with the
handed-out changes stays equal to the state; staging ranges never overlap. `frames` proves that
the renderer accepts every frame of the scene: the first one from an empty registry, and each
later one as long as the scene was only edited, grown with freshly numbered trail circles, or
trimmed of circles already handed out.

`app/` is the program around the library: the window and its events (winit), the Vulkan
calls (ash), and the floating-point values of the demo scene.
