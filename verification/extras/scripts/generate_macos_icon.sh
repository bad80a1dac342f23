#!/usr/bin/env bash
# Renders extras/assets/treefold-icon.svg into a macOS iconset and an .icns file.
# Needs rsvg-convert (librsvg) and iconutil (macOS).
set -euo pipefail
root="$(cd "$(dirname "$0")/../.." && pwd)"
src="$root/extras/assets/treefold-icon.svg"
set_dir="$root/extras/assets/treefold.iconset"
mkdir -p "$set_dir"
for size in 16 32 128 256 512; do
  rsvg-convert -w "$size" -h "$size" "$src" -o "$set_dir/icon_${size}x${size}.png"
  double=$((size * 2))
  rsvg-convert -w "$double" -h "$double" "$src" -o "$set_dir/icon_${size}x${size}@2x.png"
done
iconutil -c icns "$set_dir" -o "$root/extras/assets/treefold.icns"
echo "wrote $root/extras/assets/treefold.icns"
